use jsbf::compile::compile;
use jsbf::ir::ctx::IRError;
use jsbf::ir::ir::{IRExpr, IRStmt, IRVarInit};
use jsbf::ir::source::{parse_source, parse_source_to_ir, SourceError};

#[test]
fn source_block_compiles_to_brainfuck() {
    let ir = parse_source_to_ir(b"{ var x = 5; x += 2; }").unwrap().unwrap();
    let prog = compile(&ir).unwrap();
    assert_eq!(prog.assemble(), "[-]+++++[->>+<<]>>[-<<+>+>][-]++[-<+>]<[-<+>]");
}

#[test]
fn source_function_goes_to_the_table_only() {
    let ir = parse_source_to_ir(b"function f(a) { a += 1; return a; } { var y = 1; f(y); }").unwrap().unwrap();
    assert_eq!(ir.main.len(), 1);
    assert_eq!(ir.funcs.len(), 1);
    let (name, func) = ir.funcs.iter().next().unwrap();
    assert_eq!(func.args.len(), 1);
    let a = func.args[0];
    assert_eq!(func.code, vec![IRStmt::Assign { id: a, value: IRExpr::Add(Box::new(IRExpr::Id { id: a, last_use: false }), Box::new(IRExpr::Const(1))) }]);
    assert_eq!(func.result, Some(IRExpr::Id { id: a, last_use: false }));
    match &ir.main[0] {
        IRStmt::Block { body } => {
            assert_eq!(body.len(), 2);
            match (&body[0], &body[1]) {
                (IRStmt::VariableDefine { vars }, IRStmt::Call { id, args }) => {
                    assert_eq!(vars.len(), 1);
                    assert_eq!(vars[0].init, Some(IRExpr::Const(1)));
                    assert_eq!(id, name);
                    assert_eq!(args, &vec![IRExpr::Id { id: vars[0].id, last_use: false }]);
                }
                _ => panic!("unexpected statements"),
            }
        }
        _ => panic!("unexpected main statement"),
    }
}

#[test]
fn source_input_call_reads_a_value() {
    let ir = parse_source_to_ir(b"{ var x = input(); }").unwrap().unwrap();
    match &ir.main[0] {
        IRStmt::Block { body } => match &body[0] {
            IRStmt::VariableDefine { vars } => {
                assert_eq!(vars.len(), 1);
                let v: &IRVarInit = &vars[0];
                assert_eq!(v.init, Some(IRExpr::Input));
            }
            _ => panic!("unexpected statement"),
        },
        _ => panic!("unexpected main statement"),
    }
}

#[test]
fn source_call_without_interned_input_is_none() {
    assert!(parse_source_to_ir(b"{ var x = f(); }").is_none());
}

#[test]
fn source_errors() {
    assert!(matches!(parse_source_to_ir(b"var = ;"), Some(Err(SourceError::Syntax(_)))));
    assert_eq!(
        parse_source_to_ir(b"let x = 1;"),
        Some(Err(SourceError::Lowering(IRError::UnsupportedTopDeclaration)))
    );
    assert_eq!(
        parse_source_to_ir(b"{ var x = 200; }"),
        Some(Err(SourceError::Lowering(IRError::IntOutOfRange)))
    );
    assert_eq!(
        parse_source_to_ir(b"function f() { let y = 1; }"),
        Some(Err(SourceError::Lowering(IRError::DeclarationInFunction)))
    );
    assert_eq!(
        parse_source_to_ir(b"function f(...a) { }"),
        Some(Err(SourceError::Lowering(IRError::SpreadArgument)))
    );
}

#[test]
fn parsed_source_keeps_items_symbol_and_tree() {
    let p = parse_source(b"{ var x = input(); } x;").unwrap();
    assert_eq!(p.items.len(), 2);
    assert!(p.input.is_some());
    assert!(p.dump.starts_with("Script {"));
    let q = parse_source(b"{ var x = 1; }").unwrap();
    assert_eq!(q.items.len(), 1);
    assert_eq!(q.input, None);
}

#[test]
fn unparsable_source_gives_parser_message() {
    let m = parse_source(b"var = ;").err().unwrap();
    assert!(!m.is_empty());
}
