use vstd::prelude::*;

use crate::assembly::block::{block_spec, go_push, moves_spec, op_spec};
use crate::assembly::ctx::{go_delta, go_ok, real_addr};
use crate::assembly::program::{ops_deep, AssemblyOp, OpView};
use crate::assembly::{ADDR_PTR, FETCH_VAL_PTR, SEND_VAL_PTR};

verus! {

/// Every destination cell lies below `bound`.
pub open spec fn dests_within(dests: Seq<(usize, i8)>, bound: int) -> bool {
    forall|j: int| 0 <= j < dests.len() ==> dests[j].0 < bound
}

/// `op` works on static cells below `bound` only: every cell it names lies
/// below `bound`, and it does not touch the dynamic memory.
pub open spec fn op_within(op: OpView, bound: int) -> bool
    decreases op,
{
    match op {
        OpView::Move(p, dests) => p < bound && dests_within(dests, bound),
        OpView::SetCell(p, _) => p < bound,
        OpView::Add(p, _) => p < bound,
        OpView::Out(p) => p < bound,
        OpView::In(p) => p < bound,
        OpView::Loop(p, body) => p < bound && ops_within(body, bound),
        OpView::Fetch(_) => false,
        OpView::Send(_) => false,
    }
}

/// Each of `ops` works on static cells below `bound` only.
pub open spec fn ops_within(ops: Seq<OpView>, bound: int) -> bool
    decreases ops,
{
    if ops.len() == 0 {
        true
    } else {
        ops_within(ops.drop_last(), bound) && op_within(ops.last(), bound)
    }
}

/// Appending an operation adds its own cells to the block's.
pub proof fn lemma_ops_within_push(ops: Seq<OpView>, op: OpView, bound: int)
    ensures
        ops_within(ops.push(op), bound) == (ops_within(ops, bound) && op_within(op, bound)),
{
    assert(ops.push(op).drop_last() =~= ops);
}

/// Two blocks together stay below a bound exactly when each does.
pub proof fn lemma_ops_within_concat(a: Seq<OpView>, b: Seq<OpView>, bound: int)
    ensures
        ops_within(a + b, bound) == (ops_within(a, bound) && ops_within(b, bound)),
    decreases b.len(),
{
    if b.len() == 0 {
        assert(a + b =~= a);
    } else {
        lemma_ops_within_concat(a, b.drop_last(), bound);
        assert((a + b).drop_last() =~= a + b.drop_last());
        assert((a + b).last() == b.last());
    }
}

/// An operation below a bound is below any larger one.
pub proof fn lemma_op_within_mono(op: OpView, b1: int, b2: int)
    requires
        op_within(op, b1),
        b1 <= b2,
    ensures
        op_within(op, b2),
    decreases op,
{
    match op {
        OpView::Move(p, dests) => {
            assert forall|j: int| 0 <= j < dests.len() implies dests[j].0 < b2 by {
                assert(dests[j].0 < b1);
            }
        },
        OpView::Loop(p, body) => {
            lemma_ops_within_mono(body, b1, b2);
        },
        _ => {},
    }
}

/// A block below a bound is below any larger one.
pub proof fn lemma_ops_within_mono(ops: Seq<OpView>, b1: int, b2: int)
    requires
        ops_within(ops, b1),
        b1 <= b2,
    ensures
        ops_within(ops, b2),
    decreases ops,
{
    if ops.len() > 0 {
        lemma_ops_within_mono(ops.drop_last(), b1, b2);
        lemma_op_within_mono(ops.last(), b1, b2);
    }
}

/// One past the last cell a head position can address: `isize::MAX + 1`.
pub open spec fn addressable() -> int {
    isize::MAX as int + 1
}

/// Going from a cell at most `isize::MAX` to another such cell never
/// overflows.
pub proof fn lemma_go_static(st: usize, dy: usize, p: usize, at: usize)
    requires
        p <= isize::MAX,
        at <= isize::MAX,
    ensures
        go_ok(st, dy, p, at),
        go_delta(st, dy, p, at) == at - p,
{
    assert(at != ADDR_PTR && at != FETCH_VAL_PTR && at != SEND_VAL_PTR);
    assert(real_addr(st, dy, at) == at);
    assert(go_delta(st, dy, p, at) == at - p);
}

/// Moving to each destination, all cells at most `isize::MAX`, never overflows.
pub proof fn lemma_moves_static(st: usize, dy: usize, p: usize, code: Seq<char>, dests: Seq<(usize, i8)>)
    requires
        p <= isize::MAX,
        forall|j: int| 0 <= j < dests.len() ==> dests[j].0 <= isize::MAX,
    ensures
        moves_spec(st, dy, Some((p, code)), dests) matches Some((p2, _)) && p2 <= isize::MAX,
    decreases dests.len(),
{
    if dests.len() > 0 {
        let d = dests.drop_last();
        assert forall|j: int| 0 <= j < d.len() implies d[j].0 <= isize::MAX by {
            assert(d[j] == dests[j]);
        }
        lemma_moves_static(st, dy, p, code, d);
        let (p1, _) = moves_spec(st, dy, Some((p, code)), d).unwrap();
        assert(dests[dests.len() - 1].0 <= isize::MAX);
        lemma_go_static(st, dy, p1, dests.last().0);
    }
}

/// An operation on static cells at most `isize::MAX` only never overflows, and
/// leaves the head on a cell at most `isize::MAX`.
pub proof fn lemma_op_static(st: usize, dy: usize, p: usize, code: Seq<char>, op: AssemblyOp)
    requires
        p <= isize::MAX,
        op_within(op.deep(), addressable()),
    ensures
        op_spec(st, dy, Some((p, code)), op) matches Some((p2, _)) && p2 <= isize::MAX,
    decreases op,
{
    match op {
        AssemblyOp::Move(source, dests) => {
            assert(op.deep() == OpView::Move(source, dests@));
            assert(op_within(OpView::Move(source, dests@), addressable()));
            assert forall|j: int| 0 <= j < dests@.len() implies dests@[j].0 <= isize::MAX by {
                assert(dests@[j].0 < addressable());
            }
            lemma_go_static(st, dy, p, source);
            let s1 = go_push(st, dy, Some((p, code)), source, "[-"@);
            lemma_moves_static(st, dy, source, s1.unwrap().1, dests@);
            let (p2, c2) = moves_spec(st, dy, s1, dests@).unwrap();
            lemma_go_static(st, dy, p2, source);
        },
        AssemblyOp::SetCell(ptr, _) | AssemblyOp::Add(ptr, _) | AssemblyOp::Out(ptr) | AssemblyOp::In(ptr) => {
            lemma_go_static(st, dy, p, ptr);
        },
        AssemblyOp::Loop(cond, body) => {
            lemma_go_static(st, dy, p, cond);
            let s1 = go_push(st, dy, Some((p, code)), cond, "["@);
            lemma_block_static(st, dy, cond, s1.unwrap().1, body@);
            let (p2, _) = block_spec(st, dy, s1, body@).unwrap();
            lemma_go_static(st, dy, p2, cond);
        },
        AssemblyOp::Fetch(_) | AssemblyOp::Send(_) => {},
    }
}

/// A block of operations on static cells at most `isize::MAX` only never overflows,
/// and leaves the head on a cell at most `isize::MAX`.
pub proof fn lemma_block_static(st: usize, dy: usize, p: usize, code: Seq<char>, ops: Seq<AssemblyOp>)
    requires
        p <= isize::MAX,
        ops_within(ops_deep(ops), addressable()),
    ensures
        block_spec(st, dy, Some((p, code)), ops) matches Some((p2, _)) && p2 <= isize::MAX,
    decreases ops,
{
    if ops.len() > 0 {
        lemma_ops_within_push(ops_deep(ops.drop_last()), ops.last().deep(), addressable());
        lemma_block_static(st, dy, p, code, ops.drop_last());
        let (p1, c1) = block_spec(st, dy, Some((p, code)), ops.drop_last()).unwrap();
        lemma_op_static(st, dy, p1, c1, ops.last());
    }
}

} // verus!
