use jsbf::assembly::block::{assemble_block, AddrMap};
use jsbf::assembly::ctx::AssembleContext;
use jsbf::assembly::program::{AssemblyOp, AssemblyProgram};
use jsbf::assembly::utils::repeat;
use jsbf::assembly::{ADDR_PTR, FETCH_VAL_PTR, SEND_VAL_PTR};

fn balanced_bf(text: &str) -> bool {
    let mut depth: i64 = 0;
    for c in text.chars() {
        match c {
            '[' => depth += 1,
            ']' => {
                depth -= 1;
                if depth < 0 {
                    return false;
                }
            }
            '>' | '<' | '+' | '-' | '.' | ',' => {}
            _ => return false,
        }
    }
    depth == 0
}

fn head_shift(text: &str) -> i64 {
    text.chars().map(|c| match c {
        '>' => 1,
        '<' => -1,
        _ => 0,
    }).sum()
}

fn assemble_ops(st: usize, dy: usize, ops: Vec<AssemblyOp>) -> (String, usize) {
    let mut ctx = AssembleContext::new(st, dy);
    assemble_block(&mut ctx, &ops);
    (ctx.code, ctx.pointer)
}

#[test]
fn repeat_positive_uses_the_first_unit() {
    assert_eq!(repeat(3, ">", "<"), ">>>");
}

#[test]
fn repeat_negative_uses_the_second_unit() {
    assert_eq!(repeat(-2, ">", "<"), "<<");
    assert_eq!(repeat(-3, "ab", "cd"), "cdcdcd");
}

#[test]
fn repeat_zero_is_empty() {
    assert_eq!(repeat(0, "+", "-"), "");
}

#[test]
fn context_starts_at_cell_zero_with_no_code() {
    let ctx = AssembleContext::new(7, 2);
    assert_eq!(ctx.pointer, 0);
    assert_eq!(ctx.code, "");
    assert_eq!(ctx.st(), 7);
    assert_eq!(ctx.dy(), 2);
}

#[test]
fn go_moves_the_head_by_the_difference() {
    let mut ctx = AssembleContext::new(10, 0);
    ctx.go(5);
    assert_eq!(ctx.code, ">>>>>");
    assert_eq!(ctx.pointer, 5);
    ctx.go(2);
    assert_eq!(ctx.code, ">>>>><<<");
    assert_eq!(ctx.pointer, 2);
    ctx.go(2);
    assert_eq!(ctx.code, ">>>>><<<");
}

#[test]
fn go_to_a_register_walks_behind_the_static_memory() {
    let mut ctx = AssembleContext::new(10, 4);
    ctx.go(ADDR_PTR);
    assert_eq!(ctx.code, ">".repeat(16));
    assert_eq!(ctx.pointer, ADDR_PTR);
    // the head is then believed to be at the symbol itself, read as -1
    ctx.go(3);
    assert_eq!(ctx.code, ">".repeat(20));

    let mut ctx = AssembleContext::new(10, 4);
    ctx.go(FETCH_VAL_PTR);
    assert_eq!(ctx.code, ">".repeat(17));

    let mut ctx = AssembleContext::new(10, 4);
    ctx.go(SEND_VAL_PTR);
    assert_eq!(ctx.code, ">".repeat(23));
}

#[test]
fn add_and_push_append_text() {
    let mut ctx = AssembleContext::new(1, 0);
    ctx.add(3);
    ctx.add(-2);
    ctx.push("[.]");
    assert_eq!(ctx.code, "+++--[.]");
    assert_eq!(ctx.pointer, 0);
}

#[test]
fn addr_map_places_the_registers() {
    let m = AddrMap::new(10, 4);
    assert_eq!(m.block, 6);
    assert_eq!(m.addr, 16);
    assert_eq!(m.temp, 17);
}

#[test]
fn assemble_block_basic_operations() {
    let ops = vec![
        AssemblyOp::SetCell(2, 3),
        AssemblyOp::Move(0, vec![(1, 1), (2, -1)]),
        AssemblyOp::Loop(1, vec![AssemblyOp::Add(1, -1)]),
        AssemblyOp::Out(0),
        AssemblyOp::In(3),
    ];
    let (code, pointer) = assemble_ops(4, 0, ops);
    assert_eq!(code, ">>[-]+++<<[->+>-<<]>[-]<.>>>,");
    assert_eq!(pointer, 3);
    assert!(balanced_bf(&code));
}

#[test]
fn static_code_moves_the_head_where_it_is_recorded() {
    let ops = vec![
        AssemblyOp::Loop(4, vec![AssemblyOp::Move(1, vec![(6, 3), (0, -1)]), AssemblyOp::Out(2)]),
        AssemblyOp::SetCell(5, -4),
        AssemblyOp::In(1),
    ];
    let (code, pointer) = assemble_ops(7, 0, ops);
    assert_eq!(head_shift(&code), pointer as i64);
    // every loop brings the head back to the cell it tests
    let chars: Vec<char> = code.chars().collect();
    let mut open: Vec<usize> = vec![];
    for (i, ch) in chars.iter().enumerate() {
        if *ch == '[' {
            open.push(i);
        } else if *ch == ']' {
            let start = open.pop().unwrap();
            let inner: String = chars[start + 1..i].iter().collect();
            assert_eq!(head_shift(&inner), 0);
        }
    }
    assert_eq!(pointer, 1);
    assert!(balanced_bf(&code));
}

#[test]
fn assemble_block_fetch() {
    let (code, pointer) = assemble_ops(3, 1, vec![AssemblyOp::Fetch(0)]);
    assert_eq!(code, ">>>>>>[>>>[-]<<<-[->>>+<<<]+>>>]<[->+<]>[-<+>>+<]+[<<[-]>>>[-<<<+>>>]<<<<]");
    assert_eq!(pointer, 3);
    assert!(balanced_bf(&code));
}

#[test]
fn assemble_block_send() {
    let (code, pointer) = assemble_ops(3, 1, vec![AssemblyOp::Send(1)]);
    assert_eq!(code, ">>>>>>[>>>[-]>[-]<<<[->>>+<<<]<-[->>>+<<<]+>>>]<<[-]>>>[-<<<+>>>]<+[<<<]");
    assert_eq!(pointer, 3);
    assert!(balanced_bf(&code));
}

#[test]
fn assemble_whole_program() {
    let prog = AssemblyProgram {
        static_memory_size: 3,
        dynamic_memory_block_size: 0,
        code: vec![
            AssemblyOp::SetCell(0, 5),
            AssemblyOp::Move(0, vec![(2, 1)]),
            AssemblyOp::Move(2, vec![(0, 1), (1, 1)]),
            AssemblyOp::Out(1),
        ],
    };
    let text = prog.assemble();
    assert_eq!(text, "[-]+++++[->>+<<]>>[-<<+>+>]<.");
    assert!(balanced_bf(&text));
}

#[test]
fn assemble_empty_program() {
    let prog = AssemblyProgram { static_memory_size: 0, dynamic_memory_block_size: 0, code: vec![] };
    assert_eq!(prog.assemble(), "");
}

#[test]
fn assembled_text_is_a_brainfuck_program() {
    let prog = AssemblyProgram {
        static_memory_size: 5,
        dynamic_memory_block_size: 2,
        code: vec![
            AssemblyOp::Loop(
                1,
                vec![
                    AssemblyOp::Loop(2, vec![AssemblyOp::Move(2, vec![(3, 2)]), AssemblyOp::Fetch(1)]),
                    AssemblyOp::Send(0),
                ],
            ),
            AssemblyOp::In(4),
        ],
    };
    let text = prog.assemble();
    assert!(balanced_bf(&text));
    assert!(text.ends_with(','));
}

#[test]
fn appended_loops_return_from_any_head_position() {
    let mut ctx = AssembleContext::new(9, 0);
    ctx.pointer = 6;
    ctx.code = String::from("+>");
    let ops = vec![AssemblyOp::Loop(
        2,
        vec![
            AssemblyOp::Loop(8, vec![AssemblyOp::Add(3, 1), AssemblyOp::SetCell(0, 2)]),
            AssemblyOp::Move(5, vec![(7, 1)]),
        ],
    )];
    assemble_block(&mut ctx, &ops);
    assert!(ctx.code.starts_with("+>"));
    let appended: Vec<char> = ctx.code.chars().skip(2).collect();
    let text: String = appended.iter().collect();
    assert!(balanced_bf(&text));
    assert_eq!(head_shift(&text), ctx.pointer as i64 - 6);
    let mut open: Vec<usize> = vec![];
    let mut loops = 0;
    for (i, ch) in appended.iter().enumerate() {
        if *ch == '[' {
            open.push(i);
        } else if *ch == ']' {
            let start = open.pop().unwrap();
            let inner: String = appended[start + 1..i].iter().collect();
            assert_eq!(head_shift(&inner), 0);
            loops += 1;
        }
    }
    assert_eq!(loops, 4);
    assert_eq!(ctx.pointer, 2);
}

/// Runs brainfuck text without input on a tape of `cells` zeroed cells.
fn run_bf(text: &str, cells: usize) -> (Vec<u8>, usize) {
    let code: Vec<char> = text.chars().collect();
    let mut tape = vec![0u8; cells];
    let mut head = 0usize;
    let mut pc = 0usize;
    while pc < code.len() {
        match code[pc] {
            '>' => head += 1,
            '<' => head -= 1,
            '+' => tape[head] = tape[head].wrapping_add(1),
            '-' => tape[head] = tape[head].wrapping_sub(1),
            '[' if tape[head] == 0 => {
                let mut depth = 1;
                while depth > 0 {
                    pc += 1;
                    if code[pc] == '[' {
                        depth += 1;
                    } else if code[pc] == ']' {
                        depth -= 1;
                    }
                }
            },
            ']' if tape[head] != 0 => {
                let mut depth = 1;
                while depth > 0 {
                    pc -= 1;
                    if code[pc] == ']' {
                        depth += 1;
                    } else if code[pc] == '[' {
                        depth -= 1;
                    }
                }
            },
            _ => {},
        }
        pc += 1;
    }
    (tape, head)
}

#[test]
fn straight_line_text_does_what_the_operations_do() {
    let ops = vec![
        AssemblyOp::SetCell(0, 3),
        AssemblyOp::Move(0, vec![(1, 2), (2, -1)]),
        AssemblyOp::Add(2, 5),
        AssemblyOp::SetCell(3, -2),
    ];
    let (code, pointer) = assemble_ops(4, 0, ops);
    let (tape, head) = run_bf(&code, 4);
    assert_eq!(tape, vec![0, 6, 2, 254]);
    assert_eq!(head, pointer);
    assert_eq!(pointer, 3);
}
