use vstd::prelude::*;

use crate::assembly::block::block_spec;
use crate::assembly::cells::{addressable, lemma_block_static, lemma_ops_within_mono, ops_within};
use crate::assembly::loops::{lemma_head_tracking, loops_return};
use crate::assembly::tracking::shift;
use crate::assembly::wellformed::{is_bf_program, lemma_assemble_well_formed};
use crate::assembly::program::{ops_deep, AssemblyProgram, OpView};
use crate::assembly::machine::{exec, lemma_block_runs};
use crate::assembly::program::AssemblyOp;
use crate::assembly::semantics::{tape_ok, with_cell};
use crate::compile::expr::expr_spec;
use crate::compile::layout::{expr_value, layout_ok, lemma_expr_computes, lemma_expr_layout, lemma_stmts_layout, reads_not};
use crate::compile::ctx::{CState, CompileContext, CompileError};
use crate::compile::stmt::{compile_stmts, emit_stmts, stmts_spec};
use crate::compile::expr::Outcome;
use crate::ir::ir::{IRExpr, IR};

pub mod ctx;
pub mod expr;
pub mod binding;
pub mod layout;
pub mod stmt;

verus! {

/// The bookkeeping a compilation starts from.
pub open spec fn initial_state() -> CState {
    CState { usage: 0, max_usage: 0, callstack: Seq::empty(), var_map: Seq::empty() }
}

/// Compiling a program runs its main statements from the initial bookkeeping.
pub open spec fn compile_spec(ir: IR) -> Outcome<Seq<OpView>> {
    stmts_spec(initial_state(), ir.funcs@, ir.main@)
}

/// Every cell that a compiled program's code names lies below its static
/// memory size, the code never touches the dynamic memory, and compiling
/// never reports cells freed out of order.
pub proof fn lemma_compile_within_static_memory(ir: IR)
    ensures
        compile_spec(ir) matches Some((s, Ok(ops))) ==> ops_within(ops, s.max_usage as int),
        compile_spec(ir) matches Some((_, Err(e))) ==> e != CompileError::FreeMismatch,
{
    lemma_stmts_layout(initial_state(), ir.funcs@, ir.main@);
}

/// A program that compiles also assembles, as long as its static memory
/// stays within `isize::MAX` cells: the text is a brainfuck program, its
/// head moves bring the head from cell 0 to where assembling leaves it
/// recorded, and each of its loops brings the head back to the cell it
/// tests.
pub proof fn lemma_compiled_program_assembles(ir: IR, prog: AssemblyProgram)
    requires
        compile_spec(ir) matches Some((s, Ok(ops))) && prog.static_memory_size == s.max_usage
            && prog.dynamic_memory_block_size == 0 && ops_deep(prog.code@) == ops,
        prog.static_memory_size <= isize::MAX,
    ensures
        prog.assemble_spec() matches Some(text) && is_bf_program(text),
        block_spec(prog.static_memory_size, 0, Some((0usize, Seq::<char>::empty())), prog.code@) matches Some(
            (p, text),
        ) && shift(text) == p && loops_return(text),
{
    lemma_compile_within_static_memory(ir);
    lemma_ops_within_mono(ops_deep(prog.code@), prog.static_memory_size as int, addressable());
    lemma_block_static(prog.static_memory_size, 0, 0, Seq::empty(), prog.code@);
    lemma_assemble_well_formed(prog);
    lemma_head_tracking(prog);
}

/// Compiled expression code, once assembled, computes the expression on a
/// brainfuck machine: run from the cell where assembling starts, on a tape
/// whose target cell and every cell not in use hold 0, where the expression
/// reads no variable standing in the target, the text leaves the
/// expression's value, wrapped around at 256, in the target and every other
/// cell as it was, as long as the cells it names stay within `isize::MAX`.
pub proof fn lemma_expr_text_computes(
    s: CState,
    target: usize,
    e: IRExpr,
    t: spec_fn(int) -> int,
    ops: Seq<AssemblyOp>,
    st: usize,
    dy: usize,
    p: usize,
    code: Seq<char>,
)
    requires
        layout_ok(s),
        target < s.usage,
        tape_ok(t),
        t(target as int) == 0,
        forall|i: int| i >= s.usage ==> #[trigger] t(i) == 0,
        reads_not(s, e, target),
        expr_spec(s, target, e) matches Some((s2, Ok(v))) && v == ops_deep(ops) && s2.max_usage <= isize::MAX,
        p <= isize::MAX,
    ensures
        block_spec(st, dy, Some((p, code)), ops) matches Some((p2, code2)) && exec(
            code2.skip(code.len() as int),
            (t, p as int),
            256,
        ) == Some((with_cell(t, target as int, expr_value(s, e, t) % 256), p2 as int)),
{
    lemma_expr_computes(s, target, e, t);
    lemma_expr_layout(s, target, e);
    let s2 = expr_spec(s, target, e)->Some_0.0;
    lemma_ops_within_mono(ops_deep(ops), s2.max_usage as int, addressable());
    lemma_block_runs(st, dy, p, code, ops, t, 256);
}

/// Compiles a program into assembly whose static memory holds every cell
/// the compilation ever used. The bookkeeping must neither overflow nor
/// find no scope open on the way, as it would where the main statements
/// define variables outside any block.
pub fn compile(ir: &IR) -> (res: Result<AssemblyProgram, CompileError>)
    requires
        compile_spec(*ir) is Some,
    ensures
        match compile_spec(*ir) {
            Some((s, Ok(ops))) => res matches Ok(prog) && prog.static_memory_size == s.max_usage
                && prog.dynamic_memory_block_size == 0 && ops_deep(prog.code@) == ops,
            Some((_, Err(e))) => res == Err::<AssemblyProgram, CompileError>(e),
            None => false,
        },
{
    let mut ctx = CompileContext::new(ir.arrays.as_slice());

    let code = compile_stmts(&mut ctx, &ir.funcs, ir.main.as_slice())?;

    Ok(AssemblyProgram {
        static_memory_size: ctx.max_usage,
        dynamic_memory_block_size: 0,
        code,
    })
}

/// Compiles a program into assembly, as `compile` does; `None` where the
/// bookkeeping would overflow or find no scope open, as it does where the
/// main statements define variables outside any block.
pub fn compile_checked(ir: &IR) -> (res: Option<Result<AssemblyProgram, CompileError>>)
    ensures
        match compile_spec(*ir) {
            Some((s, Ok(ops))) => res matches Some(Ok(prog)) && prog.static_memory_size == s.max_usage
                && prog.dynamic_memory_block_size == 0 && ops_deep(prog.code@) == ops,
            Some((_, Err(e))) => res == Some(Err::<AssemblyProgram, CompileError>(e)),
            None => res is None,
        },
{
    let mut ctx = CompileContext::new(ir.arrays.as_slice());

    let code = match emit_stmts(&mut ctx, &ir.funcs, ir.main.as_slice())? {
        Ok(c) => c,
        Err(e) => {
            return Some(Err(e));
        },
    };

    Some(Ok(AssemblyProgram {
        static_memory_size: ctx.max_usage,
        dynamic_memory_block_size: 0,
        code,
    }))
}

} // verus!
