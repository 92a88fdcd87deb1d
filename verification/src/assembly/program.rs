use vstd::prelude::*;

use crate::assembly::block::{assemble_block, block_spec};
use crate::assembly::ctx::AssembleContext;

verus! {

/// One operation of the intermediate assembly; pointers are cell indices.
#[derive(Debug, PartialEq, Eq)]
pub enum AssemblyOp {
    /// Empties the first cell into each destination, scaled by its factor.
    Move(usize, Vec<(usize, i8)>),
    /// Sets a cell to a value.
    SetCell(usize, i8),
    /// Adds a value to a cell.
    Add(usize, i8),
    /// Prints a cell.
    Out(usize),
    /// Reads into a cell.
    In(usize),
    /// Runs the body while the cell is not zero.
    Loop(usize, Vec<AssemblyOp>),
    /// Loads the dynamic memory slot at the given index.
    Fetch(usize),
    /// Stores into the dynamic memory slot at the given index.
    Send(usize),
}

/// An assembly operation as a mathematical value, with its nested blocks as sequences.
pub enum OpView {
    Move(usize, Seq<(usize, i8)>),
    SetCell(usize, i8),
    Add(usize, i8),
    Out(usize),
    In(usize),
    Loop(usize, Seq<OpView>),
    Fetch(usize),
    Send(usize),
}

impl AssemblyOp {
    /// The operation as a value, nested blocks included.
    pub open spec fn deep(self) -> OpView
        decreases self,
    {
        match self {
            AssemblyOp::Move(p, dests) => OpView::Move(p, dests@),
            AssemblyOp::SetCell(p, v) => OpView::SetCell(p, v),
            AssemblyOp::Add(p, v) => OpView::Add(p, v),
            AssemblyOp::Out(p) => OpView::Out(p),
            AssemblyOp::In(p) => OpView::In(p),
            AssemblyOp::Loop(p, body) => OpView::Loop(p, ops_deep(body@)),
            AssemblyOp::Fetch(i) => OpView::Fetch(i),
            AssemblyOp::Send(i) => OpView::Send(i),
        }
    }
}

/// A block of operations as values.
pub open spec fn ops_deep(ops: Seq<AssemblyOp>) -> Seq<OpView>
    decreases ops,
{
    if ops.len() == 0 {
        Seq::empty()
    } else {
        ops_deep(ops.drop_last()).push(ops.last().deep())
    }
}

pub proof fn lemma_ops_deep_push(ops: Seq<AssemblyOp>, op: AssemblyOp)
    ensures
        ops_deep(ops.push(op)) == ops_deep(ops).push(op.deep()),
{
    assert(ops.push(op).drop_last() =~= ops);
}

pub proof fn lemma_ops_deep_concat(a: Seq<AssemblyOp>, b: Seq<AssemblyOp>)
    ensures
        ops_deep(a + b) == ops_deep(a) + ops_deep(b),
    decreases b.len(),
{
    if b.len() == 0 {
        assert(a + b =~= a);
        assert(ops_deep(a) + ops_deep(b) =~= ops_deep(a));
    } else {
        lemma_ops_deep_concat(a, b.drop_last());
        assert((a + b).drop_last() =~= a + b.drop_last());
        assert(ops_deep(a) + ops_deep(b) =~= (ops_deep(a) + ops_deep(b.drop_last())).push(b.last().deep()));
    }
}

/// A program: its memory layout and its code.
#[derive(Debug, PartialEq, Eq)]
pub struct AssemblyProgram {
    pub static_memory_size: usize,
    pub dynamic_memory_block_size: usize,
    pub code: Vec<AssemblyOp>,
}

impl AssemblyProgram {
    /// The brainfuck text of the program, when assembling it does not overflow.
    pub open spec fn assemble_spec(&self) -> Option<Seq<char>> {
        match block_spec(
            self.static_memory_size,
            self.dynamic_memory_block_size,
            Some((0usize, Seq::<char>::empty())),
            self.code@,
        ) {
            Some((_, code)) => Some(code),
            None => None,
        }
    }

    /// Assembles the program into brainfuck text.
    pub fn assemble(&self) -> (res: String)
        requires
            self.assemble_spec() is Some,
        ensures
            self.assemble_spec() == Some(res@),
    {
        let mut ctx = AssembleContext::new(self.static_memory_size, self.dynamic_memory_block_size);
        assemble_block(&mut ctx, self.code.as_slice());
        ctx.code
    }
}

} // verus!
