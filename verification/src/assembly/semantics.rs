use vstd::prelude::*;

use crate::assembly::program::OpView;

verus! {

/// Cell values on the tape, each from 0 to 255.
pub open spec fn tape_ok(t: spec_fn(int) -> int) -> bool {
    forall|i: int| 0 <= #[trigger] t(i) < 256
}

/// The tape with cell `p` holding `v`.
pub open spec fn with_cell(t: spec_fn(int) -> int, p: int, v: int) -> spec_fn(int) -> int {
    |i: int| if i == p { v } else { t(i) }
}

/// The tape after `n` times each destination's factor is added into it,
/// wrapping around at 256, destinations taken in order.
pub open spec fn moves_effect(t: spec_fn(int) -> int, dests: Seq<(usize, i8)>, n: int) -> spec_fn(int) -> int
    decreases dests.len(),
{
    if dests.len() == 0 {
        t
    } else {
        let t1 = moves_effect(t, dests.drop_last(), n);
        let d = dests.last();
        with_cell(t1, d.0 as int, (t1(d.0 as int) + d.1 * n) % 256)
    }
}

/// What a straight-line operation does to the tape: a move empties its
/// source into its destinations, each scaled by its factor (defined when no
/// destination is the source); setting and adding change one cell. Other
/// operations are not described here.
pub open spec fn op_effect(t: spec_fn(int) -> int, op: OpView) -> Option<spec_fn(int) -> int> {
    match op {
        OpView::Move(src, dests) => if forall|j: int| 0 <= j < dests.len() ==> dests[j].0 != src {
            Some(with_cell(moves_effect(t, dests, t(src as int)), src as int, 0))
        } else {
            None
        },
        OpView::SetCell(p, v) => Some(with_cell(t, p as int, (v as int) % 256)),
        OpView::Add(p, v) => Some(with_cell(t, p as int, (t(p as int) + v) % 256)),
        _ => None,
    }
}

/// Straight-line operations run in order.
pub open spec fn run(t: spec_fn(int) -> int, ops: Seq<OpView>) -> Option<spec_fn(int) -> int>
    decreases ops.len(),
{
    if ops.len() == 0 {
        Some(t)
    } else {
        match run(t, ops.drop_last()) {
            Some(t1) => op_effect(t1, ops.last()),
            None => None,
        }
    }
}

} // verus!
