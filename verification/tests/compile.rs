use std::collections::HashMap;

use jsbf::assembly::program::{AssemblyOp, AssemblyProgram};
use jsbf::compile::ctx::{CompileContext, CompileError};
use jsbf::compile::expr::compile_expr;
use jsbf::compile::stmt::compile_stmts;
use jsbf::compile::{compile, compile_checked};
use jsbf::ir::ir::{IRExpr, IRFunc, IRStmt, IRVarInit, IR};

const X: usize = 1;
const F: usize = 7;
const P: usize = 10;

fn c(v: i8) -> IRExpr {
    IRExpr::Const(v)
}

fn var(id: usize) -> IRExpr {
    IRExpr::Id { id, last_use: false }
}

fn define(id: usize, init: Option<IRExpr>) -> IRStmt {
    IRStmt::VariableDefine { vars: vec![IRVarInit { id, init }] }
}

fn program(main: Vec<IRStmt>) -> IR {
    IR { main, funcs: HashMap::new(), arrays: vec![] }
}

fn with_func(main: Vec<IRStmt>) -> IR {
    let mut funcs = HashMap::new();
    funcs.insert(F, IRFunc { args: vec![P], code: vec![IRStmt::Out { val: var(P) }], result: None });
    IR { main, funcs, arrays: vec![] }
}

fn max_cell(ops: &[AssemblyOp], acc: &mut usize, dynamic: &mut bool) {
    for op in ops {
        match op {
            AssemblyOp::Move(p, dests) => {
                *acc = (*acc).max(*p);
                for (d, _) in dests {
                    *acc = (*acc).max(*d);
                }
            }
            AssemblyOp::SetCell(p, _) | AssemblyOp::Add(p, _) | AssemblyOp::Out(p) | AssemblyOp::In(p) => {
                *acc = (*acc).max(*p);
            }
            AssemblyOp::Loop(p, body) => {
                *acc = (*acc).max(*p);
                max_cell(body, acc, dynamic);
            }
            AssemblyOp::Fetch(_) | AssemblyOp::Send(_) => *dynamic = true,
        }
    }
}

#[test]
fn compile_definition_and_output() {
    let ir = program(vec![IRStmt::Block { body: vec![define(X, Some(c(5))), IRStmt::Out { val: var(X) }] }]);
    let prog = compile(&ir).unwrap();
    assert_eq!(prog.static_memory_size, 3);
    assert_eq!(prog.dynamic_memory_block_size, 0);
    assert_eq!(
        prog.code,
        vec![
            AssemblyOp::SetCell(0, 5),
            AssemblyOp::Move(0, vec![(2, 1)]),
            AssemblyOp::Move(2, vec![(0, 1), (1, 1)]),
            AssemblyOp::Out(1),
        ]
    );
    assert_eq!(prog.assemble(), "[-]+++++[->>+<<]>>[-<<+>+>]<.");
}

#[test]
fn compile_assignment_of_a_sum() {
    let ir = program(vec![IRStmt::Block {
        body: vec![define(X, None), IRStmt::Assign { id: X, value: IRExpr::Add(Box::new(c(2)), Box::new(c(3))) }],
    }]);
    let prog = compile(&ir).unwrap();
    assert_eq!(prog.static_memory_size, 3);
    assert_eq!(
        prog.code,
        vec![
            AssemblyOp::SetCell(1, 2),
            AssemblyOp::SetCell(2, 3),
            AssemblyOp::Move(2, vec![(1, 1)]),
            AssemblyOp::Move(1, vec![(0, 1)]),
        ]
    );
}

#[test]
fn compile_loop_recomputes_its_condition() {
    let ir = program(vec![IRStmt::Block {
        body: vec![
            define(X, Some(c(3))),
            IRStmt::While {
                condition: var(X),
                body: vec![IRStmt::Assign { id: X, value: IRExpr::Sub(Box::new(var(X)), Box::new(c(1))) }],
            },
        ],
    }]);
    let prog = compile(&ir).unwrap();
    assert_eq!(prog.static_memory_size, 4);
    assert_eq!(
        prog.code,
        vec![
            AssemblyOp::SetCell(0, 3),
            AssemblyOp::Move(0, vec![(2, 1)]),
            AssemblyOp::Move(2, vec![(0, 1), (1, 1)]),
            AssemblyOp::Loop(
                1,
                vec![
                    AssemblyOp::Move(0, vec![(3, 1)]),
                    AssemblyOp::Move(3, vec![(0, 1), (2, 1)]),
                    AssemblyOp::SetCell(3, 1),
                    AssemblyOp::Move(3, vec![(2, -1)]),
                    AssemblyOp::Move(2, vec![(0, 1)]),
                    AssemblyOp::Move(0, vec![(2, 1)]),
                    AssemblyOp::Move(2, vec![(0, 1), (1, 1)]),
                ]
            ),
        ]
    );
}

#[test]
fn compile_conditional_with_else() {
    let ir = program(vec![IRStmt::Block {
        body: vec![IRStmt::If {
            condition: c(1),
            body: vec![IRStmt::Out { val: c(2) }],
            else_body: Some(vec![IRStmt::Out { val: c(3) }]),
        }],
    }]);
    let prog = compile(&ir).unwrap();
    assert_eq!(prog.static_memory_size, 3);
    assert_eq!(
        prog.code,
        vec![
            AssemblyOp::SetCell(1, 1),
            AssemblyOp::SetCell(0, 1),
            AssemblyOp::Loop(
                0,
                vec![
                    AssemblyOp::SetCell(2, 2),
                    AssemblyOp::Out(2),
                    AssemblyOp::SetCell(0, 0),
                    AssemblyOp::SetCell(1, 0),
                ]
            ),
            AssemblyOp::Loop(1, vec![AssemblyOp::SetCell(2, 3), AssemblyOp::Out(2), AssemblyOp::SetCell(1, 0)]),
        ]
    );
}

#[test]
fn compile_conditional_without_else() {
    let ir = program(vec![IRStmt::Block {
        body: vec![IRStmt::If { condition: c(1), body: vec![IRStmt::Out { val: c(2) }], else_body: None }],
    }]);
    let prog = compile(&ir).unwrap();
    assert_eq!(prog.static_memory_size, 2);
    assert_eq!(
        prog.code,
        vec![
            AssemblyOp::SetCell(0, 1),
            AssemblyOp::Loop(0, vec![AssemblyOp::SetCell(1, 2), AssemblyOp::Out(1), AssemblyOp::SetCell(0, 0)]),
        ]
    );
}

#[test]
fn compile_call_expands_the_body() {
    let ir = with_func(vec![IRStmt::Call { id: F, args: vec![c(4)] }]);
    let prog = compile(&ir).unwrap();
    assert_eq!(prog.static_memory_size, 3);
    assert_eq!(
        prog.code,
        vec![
            AssemblyOp::SetCell(0, 4),
            AssemblyOp::Move(0, vec![(2, 1)]),
            AssemblyOp::Move(2, vec![(0, 1), (1, 1)]),
            AssemblyOp::Out(1),
        ]
    );
}

#[test]
fn compile_second_call_is_reported_as_recursive() {
    let ir = with_func(vec![IRStmt::Call { id: F, args: vec![c(4)] }, IRStmt::Call { id: F, args: vec![c(5)] }]);
    assert_eq!(compile(&ir).unwrap_err(), CompileError::RecursiveCall);
}

#[test]
fn compile_undefined_function() {
    let ir = with_func(vec![IRStmt::Call { id: 9, args: vec![] }]);
    assert_eq!(compile(&ir).unwrap_err(), CompileError::UndefinedFunction);
}

#[test]
fn compile_argument_count_mismatch() {
    let ir = with_func(vec![IRStmt::Call { id: F, args: vec![] }]);
    assert_eq!(compile(&ir).unwrap_err(), CompileError::ArgsLengthMismatch);
}

#[test]
fn compile_undefined_variable() {
    let ir = program(vec![IRStmt::Block { body: vec![IRStmt::Assign { id: 5, value: c(1) }] }]);
    assert_eq!(compile(&ir).unwrap_err(), CompileError::UndefinedVariable);
}

#[test]
fn compile_unimplemented_expression() {
    let ir = program(vec![IRStmt::Block {
        body: vec![IRStmt::Out { val: IRExpr::Mul(Box::new(c(1)), Box::new(c(2))) }],
    }]);
    assert_eq!(compile(&ir).unwrap_err(), CompileError::Unimplemented);
}

#[test]
fn compile_empty_program() {
    let prog = compile(&program(vec![IRStmt::Noop])).unwrap();
    assert_eq!(prog.static_memory_size, 0);
    assert!(prog.code.is_empty());
}

#[test]
fn compile_checked_reports_a_top_level_definition() {
    let ir = program(vec![define(X, Some(c(1)))]);
    assert!(compile_checked(&ir).is_none());
}

#[test]
fn compile_checked_reports_an_earlier_error_first() {
    let ir = with_func(vec![IRStmt::Call { id: 9, args: vec![] }, define(X, Some(c(1)))]);
    assert_eq!(compile_checked(&ir), Some(Err(CompileError::UndefinedFunction)));
}

#[test]
fn compile_checked_agrees_with_compile() {
    let ir = program(vec![IRStmt::Block { body: vec![define(X, Some(c(5))), IRStmt::Out { val: var(X) }] }]);
    assert_eq!(compile_checked(&ir), Some(compile(&ir)));
}

#[test]
fn compiled_cells_stay_below_the_static_memory() {
    let ir = program(vec![IRStmt::Block {
        body: vec![
            define(X, Some(c(3))),
            define(2, Some(var(X))),
            IRStmt::While {
                condition: var(X),
                body: vec![
                    IRStmt::Assign { id: X, value: IRExpr::Sub(Box::new(var(X)), Box::new(c(1))) },
                    IRStmt::If {
                        condition: var(2),
                        body: vec![IRStmt::Out { val: IRExpr::Add(Box::new(var(2)), Box::new(var(X))) }],
                        else_body: Some(vec![IRStmt::Block { body: vec![define(3, Some(c(9)))] }]),
                    },
                ],
            },
        ],
    }]);
    let prog = compile(&ir).unwrap();
    let mut top = 0usize;
    let mut dynamic = false;
    max_cell(&prog.code, &mut top, &mut dynamic);
    assert!(top < prog.static_memory_size);
    assert!(!dynamic);
    let text = prog.assemble();
    assert!(!text.is_empty());
}

#[test]
fn compile_error_messages() {
    assert_eq!(CompileError::FreeMismatch.message(), "Internal: Free mismatch");
    assert_eq!(CompileError::UndefinedVariable.message(), "Undefined variable detected");
    assert_eq!(CompileError::RecursiveCall.message(), "Recursive call detected");
    assert_eq!(CompileError::UndefinedFunction.message(), "Undefined function detected");
    assert_eq!(CompileError::ArgsLengthMismatch.message(), "Function args length mismatch");
    assert_eq!(CompileError::Unimplemented.message(), "todo");
}

#[test]
fn context_scopes_and_cells() {
    let arrays: Vec<usize> = vec![];
    let mut ctx = CompileContext::new(&arrays);
    assert_eq!(ctx.usage, 0);
    assert_eq!(ctx.max_usage, 0);
    ctx.push();
    assert_eq!(ctx.alloc_var(X), 0);
    assert_eq!(ctx.alloc_noname(), 1);
    ctx.push();
    assert_eq!(ctx.alloc_var(X), 2);
    assert_eq!(ctx.get(X), Ok(2));
    assert_eq!(ctx.max_usage, 3);
    ctx.pop();
    assert_eq!(ctx.usage, 2);
    assert_eq!(ctx.get(X), Ok(0));
    assert_eq!(ctx.get(4), Err(CompileError::UndefinedVariable));
    assert_eq!(ctx.free(1), Ok(()));
    assert_eq!(ctx.usage, 1);
    assert_eq!(ctx.max_usage, 3);
    ctx.pop();
    assert_eq!(ctx.usage, 0);
}

#[test]
fn context_free_out_of_order() {
    let arrays: Vec<usize> = vec![];
    let mut ctx = CompileContext::new(&arrays);
    let a = ctx.alloc_noname();
    let _b = ctx.alloc_noname();
    assert_eq!(ctx.free(a), Err(CompileError::FreeMismatch));
    assert_eq!(ctx.usage, 2);
}

#[test]
fn compile_expr_restores_the_cells_in_use() {
    let arrays: Vec<usize> = vec![];
    let funcs: HashMap<usize, IRFunc> = HashMap::new();
    let mut ctx = CompileContext::new(&arrays);
    ctx.push();
    let x = ctx.alloc_var(X);
    let t = ctx.alloc_noname();
    let code = compile_expr(&mut ctx, &funcs, t, &IRExpr::Sub(Box::new(var(X)), Box::new(c(2)))).unwrap();
    assert_eq!(
        code,
        vec![
            AssemblyOp::Move(x, vec![(2, 1)]),
            AssemblyOp::Move(2, vec![(x, 1), (t, 1)]),
            AssemblyOp::SetCell(2, 2),
            AssemblyOp::Move(2, vec![(t, -1)]),
        ]
    );
    assert_eq!(ctx.usage, 2);
    assert_eq!(ctx.var_map.len(), 1);
    assert_eq!(ctx.max_usage, 3);
}

#[test]
fn compile_stmts_in_an_open_scope() {
    let arrays: Vec<usize> = vec![];
    let funcs: HashMap<usize, IRFunc> = HashMap::new();
    let mut ctx = CompileContext::new(&arrays);
    ctx.push();
    let code = compile_stmts(&mut ctx, &funcs, &[define(X, Some(c(1)))]).unwrap();
    assert_eq!(code, vec![AssemblyOp::SetCell(0, 1)]);
    assert_eq!(ctx.usage, 1);
    assert_eq!(ctx.get(X), Ok(0));
}

/// Runs brainfuck text without input on a tape of `cells` zeroed cells.
fn run_bf(text: &str, cells: usize) -> Vec<u8> {
    let code: Vec<char> = text.chars().collect();
    let mut tape = vec![0u8; cells];
    let mut head = 0usize;
    let mut pc = 0usize;
    while pc < code.len() {
        match code[pc] {
            '>' => head += 1,
            '<' => head -= 1,
            '+' => tape[head] = tape[head].wrapping_add(1),
            '-' => tape[head] = tape[head].wrapping_sub(1),
            '[' if tape[head] == 0 => {
                let mut depth = 1;
                while depth > 0 {
                    pc += 1;
                    if code[pc] == '[' {
                        depth += 1;
                    } else if code[pc] == ']' {
                        depth -= 1;
                    }
                }
            },
            ']' if tape[head] != 0 => {
                let mut depth = 1;
                while depth > 0 {
                    pc -= 1;
                    if code[pc] == ']' {
                        depth += 1;
                    } else if code[pc] == '[' {
                        depth -= 1;
                    }
                }
            },
            _ => {},
        }
        pc += 1;
    }
    tape
}

#[test]
fn compiled_expression_leaves_its_value_in_the_target() {
    const Y: usize = 2;
    let arrays: Vec<usize> = vec![];
    let funcs: HashMap<usize, IRFunc> = HashMap::new();
    let mut ctx = CompileContext::new(&arrays);
    ctx.push();
    let x = ctx.alloc_var(X);
    let y = ctx.alloc_var(Y);
    let t = ctx.alloc_noname();
    let e = IRExpr::Add(Box::new(IRExpr::Sub(Box::new(var(X)), Box::new(var(Y)))), Box::new(c(-10)));
    let mut code = vec![AssemblyOp::SetCell(x, 7), AssemblyOp::SetCell(y, 3)];
    code.extend(compile_expr(&mut ctx, &funcs, t, &e).unwrap());
    let prog = AssemblyProgram { code, static_memory_size: ctx.max_usage, dynamic_memory_block_size: 0 };
    let tape = run_bf(&prog.assemble(), ctx.max_usage);
    // 7 - 3 - 10 wraps around to 250; the variables keep their values and
    // every temporary cell is empty again
    assert_eq!(tape[t], 250);
    assert_eq!(tape[x], 7);
    assert_eq!(tape[y], 3);
    assert!(tape[t + 1..].iter().all(|v| *v == 0));
}
