use vstd::prelude::*;
use vstd::seq_lib::lemma_concat_associative;

use crate::assembly::ctx::{add_code, go_code, go_ok, AssembleContext};
use crate::assembly::program::AssemblyOp;

verus! {

/// Where an assembly run stands: the head position and the text emitted, or
/// `None` once some arithmetic on the way has overflowed.
pub type AsmState = Option<(usize, Seq<char>)>;

/// Cells used to walk the dynamic memory: its block stride, the address
/// register and the temporary register.
pub struct AddrMap {
    pub block: usize,
    pub addr: usize,
    pub temp: usize,
}

impl AddrMap {
    /// The walking cells for a static memory of `st` cells and dynamic blocks of `dy` cells.
    pub fn new(st: usize, dy: usize) -> (m: AddrMap)
        requires
            st + dy + 3 <= usize::MAX,
        ensures
            m.block == dy + 2,
            m.addr == st + dy + 2,
            m.temp == st + dy + 3,
    {
        let block = dy + 2;
        let addr = st + block;
        let temp = addr + 1;
        AddrMap { block, addr, temp }
    }
}

/// `go` from cell `from` to cell `to` is possible.
pub open spec fn gok(st: usize, dy: usize, from: int, to: int) -> bool {
    &&& 0 <= from <= usize::MAX
    &&& 0 <= to <= usize::MAX
    &&& go_ok(st, dy, from as usize, to as usize)
}

/// The head moves from cell `from` to cell `to`.
pub open spec fn gc(st: usize, dy: usize, from: int, to: int) -> Seq<char> {
    go_code(st, dy, from as usize, to as usize)
}

/// The text that `Fetch(index)` emits when the head stands at `p`: walk the
/// dynamic memory to the addressed block, move the slot's value into the
/// temporary register while restoring it, and carry the register back.
pub open spec fn fetch_code(st: usize, dy: usize, p: int, index: int) -> Seq<char> {
    let b = dy + 2;
    let a = st + b;
    let t = a + 1;
    let v = a - 1 - index;
    gc(st, dy, p, a)
        + "["@
        + gc(st, dy, a, a + b)
        + "[-]"@
        + gc(st, dy, a + b, a)
        + "-"@
        + "[-"@
        + gc(st, dy, a, a + b)
        + "+"@
        + gc(st, dy, a + b, a)
        + "]+"@
        + gc(st, dy, a, a + b)
        + "]"@
        + gc(st, dy, a, v)
        + "[-"@
        + gc(st, dy, v, a)
        + "+"@
        + gc(st, dy, a, v)
        + "]"@
        + gc(st, dy, v, a)
        + "[-"@
        + gc(st, dy, a, v)
        + "+"@
        + gc(st, dy, v, t)
        + "+"@
        + gc(st, dy, t, a)
        + "]"@
        + gc(st, dy, a, a)
        + "+["@
        + gc(st, dy, a, t - b)
        + "[-]"@
        + gc(st, dy, t - b, t)
        + "[-"@
        + gc(st, dy, t, t - b)
        + "+"@
        + gc(st, dy, t - b, t)
        + "]"@
        + gc(st, dy, t, a - b)
        + "]"@
}

/// `Fetch(index)` from head position `p` neither overflows nor underflows.
pub open spec fn fetch_ok(st: usize, dy: usize, p: int, index: int) -> bool {
    let b = dy + 2;
    let a = st + b;
    let t = a + 1;
    let v = a - 1 - index;
    &&& t + b <= usize::MAX
    &&& v >= 0
    &&& gok(st, dy, p, a)
    &&& gok(st, dy, a, a + b)
    &&& gok(st, dy, a + b, a)
    &&& gok(st, dy, a, a + b)
    &&& gok(st, dy, a + b, a)
    &&& gok(st, dy, a, a + b)
    &&& gok(st, dy, a, v)
    &&& gok(st, dy, v, a)
    &&& gok(st, dy, a, v)
    &&& gok(st, dy, v, a)
    &&& gok(st, dy, a, v)
    &&& gok(st, dy, v, t)
    &&& gok(st, dy, t, a)
    &&& gok(st, dy, a, a)
    &&& gok(st, dy, a, t - b)
    &&& gok(st, dy, t - b, t)
    &&& gok(st, dy, t, t - b)
    &&& gok(st, dy, t - b, t)
    &&& gok(st, dy, t, a - b)
}

/// The text that `Send(index)` emits when the head stands at `p`: walk the
/// dynamic memory to the addressed block carrying the temporary register,
/// and move the register into the slot.
pub open spec fn send_code(st: usize, dy: usize, p: int, index: int) -> Seq<char> {
    let b = dy + 2;
    let a = st + b;
    let t = a + 1;
    let v = a - 1 - index;
    gc(st, dy, p, a)
        + "["@
        + gc(st, dy, a, a + b)
        + "[-]"@
        + gc(st, dy, a + b, t + b)
        + "[-]"@
        + gc(st, dy, t + b, t)
        + "[-"@
        + gc(st, dy, t, t + b)
        + "+"@
        + gc(st, dy, t + b, t)
        + "]"@
        + gc(st, dy, t, a)
        + "-"@
        + "[-"@
        + gc(st, dy, a, a + b)
        + "+"@
        + gc(st, dy, a + b, a)
        + "]+"@
        + gc(st, dy, a, a + b)
        + "]"@
        + gc(st, dy, a, v)
        + "[-]"@
        + gc(st, dy, v, t)
        + "[-"@
        + gc(st, dy, t, v)
        + "+"@
        + gc(st, dy, v, t)
        + "]"@
        + gc(st, dy, t, a)
        + "+["@
        + gc(st, dy, a, a - b)
        + "]"@
}

/// `Send(index)` from head position `p` neither overflows nor underflows.
pub open spec fn send_ok(st: usize, dy: usize, p: int, index: int) -> bool {
    let b = dy + 2;
    let a = st + b;
    let t = a + 1;
    let v = a - 1 - index;
    &&& t + b <= usize::MAX
    &&& v >= 0
    &&& gok(st, dy, p, a)
    &&& gok(st, dy, a, a + b)
    &&& gok(st, dy, a + b, t + b)
    &&& gok(st, dy, t + b, t)
    &&& gok(st, dy, t, t + b)
    &&& gok(st, dy, t + b, t)
    &&& gok(st, dy, t, a)
    &&& gok(st, dy, a, a + b)
    &&& gok(st, dy, a + b, a)
    &&& gok(st, dy, a, a + b)
    &&& gok(st, dy, a, v)
    &&& gok(st, dy, v, t)
    &&& gok(st, dy, t, v)
    &&& gok(st, dy, v, t)
    &&& gok(st, dy, t, a)
    &&& gok(st, dy, a, a - b)
}

/// Emits `text` after moving to `at`: the state after `go(at)` and a push.
pub open spec fn go_push(st: usize, dy: usize, s: AsmState, at: usize, text: Seq<char>) -> AsmState {
    match s {
        Some((p, code)) => if go_ok(st, dy, p, at) {
            Some((at, code + go_code(st, dy, p, at) + text))
        } else {
            None
        },
        None => None,
    }
}

/// The state after one operation, for a static memory of `st` cells and
/// dynamic blocks of `dy` cells.
pub open spec fn op_spec(st: usize, dy: usize, s: AsmState, op: AssemblyOp) -> AsmState
    decreases op,
{
    match op {
        AssemblyOp::Move(source, dests) => {
            let s1 = go_push(st, dy, s, source, "[-"@);
            go_push(st, dy, moves_spec(st, dy, s1, dests@), source, "]"@)
        },
        AssemblyOp::SetCell(ptr, val) => match go_push(st, dy, s, ptr, "[-]"@) {
            Some((p, code)) => Some((p, code + add_code(val))),
            None => None,
        },
        AssemblyOp::Add(ptr, val) => match go_push(st, dy, s, ptr, Seq::empty()) {
            Some((p, code)) => Some((p, code + add_code(val))),
            None => None,
        },
        AssemblyOp::Out(ptr) => go_push(st, dy, s, ptr, "."@),
        AssemblyOp::In(ptr) => go_push(st, dy, s, ptr, ","@),
        AssemblyOp::Loop(cond, body) => {
            let s1 = go_push(st, dy, s, cond, "["@);
            go_push(st, dy, block_spec(st, dy, s1, body@), cond, "]"@)
        },
        AssemblyOp::Fetch(index) => match s {
            Some((p, code)) => if fetch_ok(st, dy, p as int, index as int) {
                Some((st, code + fetch_code(st, dy, p as int, index as int)))
            } else {
                None
            },
            None => None,
        },
        AssemblyOp::Send(index) => match s {
            Some((p, code)) => if send_ok(st, dy, p as int, index as int) {
                Some((st, code + send_code(st, dy, p as int, index as int)))
            } else {
                None
            },
            None => None,
        },
    }
}

/// The state after moving to each destination in turn and adding its factor.
pub open spec fn moves_spec(st: usize, dy: usize, s: AsmState, dests: Seq<(usize, i8)>) -> AsmState
    decreases dests.len(),
{
    if dests.len() == 0 {
        s
    } else {
        match go_push(st, dy, moves_spec(st, dy, s, dests.drop_last()), dests.last().0, Seq::empty()) {
            Some((p, code)) => Some((p, code + add_code(dests.last().1))),
            None => None,
        }
    }
}

/// The state after a block of operations, taken in order.
pub open spec fn block_spec(st: usize, dy: usize, s: AsmState, ops: Seq<AssemblyOp>) -> AsmState
    decreases ops,
{
    if ops.len() == 0 {
        s
    } else {
        op_spec(st, dy, block_spec(st, dy, s, ops.drop_last()), ops.last())
    }
}

/// Once an arithmetic step has overflowed, no operation recovers.
proof fn lemma_op_none(st: usize, dy: usize, op: AssemblyOp)
    ensures
        op_spec(st, dy, None, op) is None,
    decreases op,
{
    match op {
        AssemblyOp::Move(source, dests) => {
            lemma_moves_none(st, dy, dests@);
        },
        AssemblyOp::Loop(cond, body) => {
            lemma_block_none(st, dy, body@);
        },
        _ => {},
    }
}

proof fn lemma_moves_none(st: usize, dy: usize, dests: Seq<(usize, i8)>)
    ensures
        moves_spec(st, dy, None, dests) is None,
    decreases dests.len(),
{
    if dests.len() > 0 {
        lemma_moves_none(st, dy, dests.drop_last());
    }
}

proof fn lemma_block_none(st: usize, dy: usize, ops: Seq<AssemblyOp>)
    ensures
        block_spec(st, dy, None, ops) is None,
    decreases ops,
{
    if ops.len() > 0 {
        lemma_block_none(st, dy, ops.drop_last());
        lemma_op_none(st, dy, ops.last());
    }
}

/// A block whose run succeeds succeeds on each of its prefixes.
proof fn lemma_block_prefix(st: usize, dy: usize, s: AsmState, ops: Seq<AssemblyOp>, i: int)
    requires
        0 <= i <= ops.len(),
        block_spec(st, dy, s, ops) is Some,
    ensures
        block_spec(st, dy, s, ops.take(i)) is Some,
    decreases ops.len(),
{
    if i < ops.len() {
        if block_spec(st, dy, s, ops.drop_last()) is None {
            lemma_op_none(st, dy, ops.last());
        }
        lemma_block_prefix(st, dy, s, ops.drop_last(), i);
        assert(ops.drop_last().take(i) =~= ops.take(i));
    } else {
        assert(ops.take(i) =~= ops);
    }
}

proof fn lemma_moves_prefix(st: usize, dy: usize, s: AsmState, dests: Seq<(usize, i8)>, i: int)
    requires
        0 <= i <= dests.len(),
        moves_spec(st, dy, s, dests) is Some,
    ensures
        moves_spec(st, dy, s, dests.take(i)) is Some,
    decreases dests.len(),
{
    if i < dests.len() {
        lemma_moves_prefix(st, dy, s, dests.drop_last(), i);
        assert(dests.drop_last().take(i) =~= dests.take(i));
    } else {
        assert(dests.take(i) =~= dests);
    }
}

/// Emits the code for one `Fetch(index)`.
fn assemble_fetch(ctx: &mut AssembleContext, index: usize)
    requires
        fetch_ok(old(ctx).st(), old(ctx).dy(), old(ctx).pointer as int, index as int),
    ensures
        final(ctx).st() == old(ctx).st(),
        final(ctx).dy() == old(ctx).dy(),
        final(ctx).pointer == old(ctx).st(),
        final(ctx).code@ == old(ctx).code@ + fetch_code(
            old(ctx).st(),
            old(ctx).dy(),
            old(ctx).pointer as int,
            index as int,
        ),
{
    let ghost st = ctx.st();
    let ghost dy = ctx.dy();
    let ghost p = ctx.pointer as int;
    let ghost c0 = ctx.code@;
    let ghost b = dy + 2;
    let ghost a = st + b;
    let ghost t = a + 1;
    let ghost v = a - 1 - index;
    let ghost mut e: Seq<char> = Seq::empty();
    let AddrMap { block, addr, temp } = AddrMap::new(ctx.st(), ctx.dy());

    ctx.go(addr);
    proof { e = gc(st, dy, p, a); }
    ctx.push("[");
    proof { lemma_concat_associative(c0, e, "["@); e = e + "["@; }
    ctx.go(addr + block);
    proof { lemma_concat_associative(c0, e, gc(st, dy, a, a + b)); e = e + gc(st, dy, a, a + b); }
    ctx.push("[-]");
    proof { lemma_concat_associative(c0, e, "[-]"@); e = e + "[-]"@; }
    ctx.go(addr);
    proof { lemma_concat_associative(c0, e, gc(st, dy, a + b, a)); e = e + gc(st, dy, a + b, a); }
    ctx.push("-");
    proof { lemma_concat_associative(c0, e, "-"@); e = e + "-"@; }
    ctx.push("[-");
    proof { lemma_concat_associative(c0, e, "[-"@); e = e + "[-"@; }
    ctx.go(addr + block);
    proof { lemma_concat_associative(c0, e, gc(st, dy, a, a + b)); e = e + gc(st, dy, a, a + b); }
    ctx.push("+");
    proof { lemma_concat_associative(c0, e, "+"@); e = e + "+"@; }
    ctx.go(addr);
    proof { lemma_concat_associative(c0, e, gc(st, dy, a + b, a)); e = e + gc(st, dy, a + b, a); }
    ctx.push("]+");
    proof { lemma_concat_associative(c0, e, "]+"@); e = e + "]+"@; }
    ctx.go(addr + block);
    proof { lemma_concat_associative(c0, e, gc(st, dy, a, a + b)); e = e + gc(st, dy, a, a + b); }
    ctx.pointer = addr;
    ctx.push("]");
    proof { lemma_concat_associative(c0, e, "]"@); e = e + "]"@; }
    let val = addr - 1 - index;
    ctx.go(val);
    proof { lemma_concat_associative(c0, e, gc(st, dy, a, v)); e = e + gc(st, dy, a, v); }
    ctx.push("[-");
    proof { lemma_concat_associative(c0, e, "[-"@); e = e + "[-"@; }
    ctx.go(addr);
    proof { lemma_concat_associative(c0, e, gc(st, dy, v, a)); e = e + gc(st, dy, v, a); }
    ctx.push("+");
    proof { lemma_concat_associative(c0, e, "+"@); e = e + "+"@; }
    ctx.go(val);
    proof { lemma_concat_associative(c0, e, gc(st, dy, a, v)); e = e + gc(st, dy, a, v); }
    ctx.push("]");
    proof { lemma_concat_associative(c0, e, "]"@); e = e + "]"@; }
    ctx.go(addr);
    proof { lemma_concat_associative(c0, e, gc(st, dy, v, a)); e = e + gc(st, dy, v, a); }
    ctx.push("[-");
    proof { lemma_concat_associative(c0, e, "[-"@); e = e + "[-"@; }
    ctx.go(val);
    proof { lemma_concat_associative(c0, e, gc(st, dy, a, v)); e = e + gc(st, dy, a, v); }
    ctx.push("+");
    proof { lemma_concat_associative(c0, e, "+"@); e = e + "+"@; }
    ctx.go(temp);
    proof { lemma_concat_associative(c0, e, gc(st, dy, v, t)); e = e + gc(st, dy, v, t); }
    ctx.push("+");
    proof { lemma_concat_associative(c0, e, "+"@); e = e + "+"@; }
    ctx.go(addr);
    proof { lemma_concat_associative(c0, e, gc(st, dy, t, a)); e = e + gc(st, dy, t, a); }
    ctx.push("]");
    proof { lemma_concat_associative(c0, e, "]"@); e = e + "]"@; }
    ctx.go(addr);
    proof { lemma_concat_associative(c0, e, gc(st, dy, a, a)); e = e + gc(st, dy, a, a); }
    ctx.push("+[");
    proof { lemma_concat_associative(c0, e, "+["@); e = e + "+["@; }
    ctx.go(temp - block);
    proof { lemma_concat_associative(c0, e, gc(st, dy, a, t - b)); e = e + gc(st, dy, a, t - b); }
    ctx.push("[-]");
    proof { lemma_concat_associative(c0, e, "[-]"@); e = e + "[-]"@; }
    ctx.go(temp);
    proof { lemma_concat_associative(c0, e, gc(st, dy, t - b, t)); e = e + gc(st, dy, t - b, t); }
    ctx.push("[-");
    proof { lemma_concat_associative(c0, e, "[-"@); e = e + "[-"@; }
    ctx.go(temp - block);
    proof { lemma_concat_associative(c0, e, gc(st, dy, t, t - b)); e = e + gc(st, dy, t, t - b); }
    ctx.push("+");
    proof { lemma_concat_associative(c0, e, "+"@); e = e + "+"@; }
    ctx.go(temp);
    proof { lemma_concat_associative(c0, e, gc(st, dy, t - b, t)); e = e + gc(st, dy, t - b, t); }
    ctx.push("]");
    proof { lemma_concat_associative(c0, e, "]"@); e = e + "]"@; }
    ctx.go(addr - block);
    proof { lemma_concat_associative(c0, e, gc(st, dy, t, a - b)); e = e + gc(st, dy, t, a - b); }
    ctx.push("]");
    proof { lemma_concat_associative(c0, e, "]"@); e = e + "]"@; }
    assert(e == fetch_code(st, dy, p, index as int));
}

/// Emits the code for one `Send(index)`.
fn assemble_send(ctx: &mut AssembleContext, index: usize)
    requires
        send_ok(old(ctx).st(), old(ctx).dy(), old(ctx).pointer as int, index as int),
    ensures
        final(ctx).st() == old(ctx).st(),
        final(ctx).dy() == old(ctx).dy(),
        final(ctx).pointer == old(ctx).st(),
        final(ctx).code@ == old(ctx).code@ + send_code(
            old(ctx).st(),
            old(ctx).dy(),
            old(ctx).pointer as int,
            index as int,
        ),
{
    let ghost st = ctx.st();
    let ghost dy = ctx.dy();
    let ghost p = ctx.pointer as int;
    let ghost c0 = ctx.code@;
    let ghost b = dy + 2;
    let ghost a = st + b;
    let ghost t = a + 1;
    let ghost v = a - 1 - index;
    let ghost mut e: Seq<char> = Seq::empty();
    let AddrMap { block, addr, temp } = AddrMap::new(ctx.st(), ctx.dy());

    ctx.go(addr);
    proof { e = gc(st, dy, p, a); }
    ctx.push("[");
    proof { lemma_concat_associative(c0, e, "["@); e = e + "["@; }
    ctx.go(addr + block);
    proof { lemma_concat_associative(c0, e, gc(st, dy, a, a + b)); e = e + gc(st, dy, a, a + b); }
    ctx.push("[-]");
    proof { lemma_concat_associative(c0, e, "[-]"@); e = e + "[-]"@; }
    ctx.go(temp + block);
    proof { lemma_concat_associative(c0, e, gc(st, dy, a + b, t + b)); e = e + gc(st, dy, a + b, t + b); }
    ctx.push("[-]");
    proof { lemma_concat_associative(c0, e, "[-]"@); e = e + "[-]"@; }
    ctx.go(temp);
    proof { lemma_concat_associative(c0, e, gc(st, dy, t + b, t)); e = e + gc(st, dy, t + b, t); }
    ctx.push("[-");
    proof { lemma_concat_associative(c0, e, "[-"@); e = e + "[-"@; }
    ctx.go(temp + block);
    proof { lemma_concat_associative(c0, e, gc(st, dy, t, t + b)); e = e + gc(st, dy, t, t + b); }
    ctx.push("+");
    proof { lemma_concat_associative(c0, e, "+"@); e = e + "+"@; }
    ctx.go(temp);
    proof { lemma_concat_associative(c0, e, gc(st, dy, t + b, t)); e = e + gc(st, dy, t + b, t); }
    ctx.push("]");
    proof { lemma_concat_associative(c0, e, "]"@); e = e + "]"@; }
    ctx.go(addr);
    proof { lemma_concat_associative(c0, e, gc(st, dy, t, a)); e = e + gc(st, dy, t, a); }
    ctx.push("-");
    proof { lemma_concat_associative(c0, e, "-"@); e = e + "-"@; }
    ctx.push("[-");
    proof { lemma_concat_associative(c0, e, "[-"@); e = e + "[-"@; }
    ctx.go(addr + block);
    proof { lemma_concat_associative(c0, e, gc(st, dy, a, a + b)); e = e + gc(st, dy, a, a + b); }
    ctx.push("+");
    proof { lemma_concat_associative(c0, e, "+"@); e = e + "+"@; }
    ctx.go(addr);
    proof { lemma_concat_associative(c0, e, gc(st, dy, a + b, a)); e = e + gc(st, dy, a + b, a); }
    ctx.push("]+");
    proof { lemma_concat_associative(c0, e, "]+"@); e = e + "]+"@; }
    ctx.go(addr + block);
    proof { lemma_concat_associative(c0, e, gc(st, dy, a, a + b)); e = e + gc(st, dy, a, a + b); }
    ctx.pointer = addr;
    ctx.push("]");
    proof { lemma_concat_associative(c0, e, "]"@); e = e + "]"@; }
    let val = addr - 1 - index;
    ctx.go(val);
    proof { lemma_concat_associative(c0, e, gc(st, dy, a, v)); e = e + gc(st, dy, a, v); }
    ctx.push("[-]");
    proof { lemma_concat_associative(c0, e, "[-]"@); e = e + "[-]"@; }
    ctx.go(temp);
    proof { lemma_concat_associative(c0, e, gc(st, dy, v, t)); e = e + gc(st, dy, v, t); }
    ctx.push("[-");
    proof { lemma_concat_associative(c0, e, "[-"@); e = e + "[-"@; }
    ctx.go(val);
    proof { lemma_concat_associative(c0, e, gc(st, dy, t, v)); e = e + gc(st, dy, t, v); }
    ctx.push("+");
    proof { lemma_concat_associative(c0, e, "+"@); e = e + "+"@; }
    ctx.go(temp);
    proof { lemma_concat_associative(c0, e, gc(st, dy, v, t)); e = e + gc(st, dy, v, t); }
    ctx.push("]");
    proof { lemma_concat_associative(c0, e, "]"@); e = e + "]"@; }
    ctx.go(addr);
    proof { lemma_concat_associative(c0, e, gc(st, dy, t, a)); e = e + gc(st, dy, t, a); }
    ctx.push("+[");
    proof { lemma_concat_associative(c0, e, "+["@); e = e + "+["@; }
    ctx.go(addr - block);
    proof { lemma_concat_associative(c0, e, gc(st, dy, a, a - b)); e = e + gc(st, dy, a, a - b); }
    ctx.push("]");
    proof { lemma_concat_associative(c0, e, "]"@); e = e + "]"@; }
    assert(e == send_code(st, dy, p, index as int));
}

/// Emits the brainfuck text for a block of operations, in order.
pub fn assemble_block(ctx: &mut AssembleContext, block: &[AssemblyOp])
    requires
        block_spec(
            old(ctx).st(),
            old(ctx).dy(),
            Some((old(ctx).pointer, old(ctx).code@)),
            block@,
        ) is Some,
    ensures
        final(ctx).st() == old(ctx).st(),
        final(ctx).dy() == old(ctx).dy(),
        Some((final(ctx).pointer, final(ctx).code@)) == block_spec(
            old(ctx).st(),
            old(ctx).dy(),
            Some((old(ctx).pointer, old(ctx).code@)),
            block@,
        ),
    decreases block@,
{
    let ghost st = ctx.st();
    let ghost dy = ctx.dy();
    let ghost s0: AsmState = Some((ctx.pointer, ctx.code@));
    let mut i: usize = 0;
    while i < block.len()
        invariant
            0 <= i <= block@.len(),
            ctx.st() == st,
            ctx.dy() == dy,
            block_spec(st, dy, s0, block@) is Some,
            Some((ctx.pointer, ctx.code@)) == block_spec(st, dy, s0, block@.take(i as int)),
        decreases block@.len() - i,
    {
        proof {
            lemma_block_prefix(st, dy, s0, block@, i + 1);
            assert(block@.take(i + 1).drop_last() =~= block@.take(i as int));
        }
        let ghost before: AsmState = Some((ctx.pointer, ctx.code@));
        let ghost after: AsmState = op_spec(st, dy, before, block@[i as int]);
        assert(after is Some);
        match &block[i] {
            AssemblyOp::Move(source, dests) => {
                proof {
                    lemma_moves_none(st, dy, dests@);
                }
                ctx.go(*source);
                ctx.push("[-");
                let ghost s1: AsmState = Some((ctx.pointer, ctx.code@));
                let mut j: usize = 0;
                while j < dests.len()
                    invariant
                        0 <= j <= dests@.len(),
                        ctx.st() == st,
                        ctx.dy() == dy,
                        go_push(st, dy, moves_spec(st, dy, s1, dests@), *source, "]"@) is Some,
                        Some((ctx.pointer, ctx.code@)) == moves_spec(st, dy, s1, dests@.take(j as int)),
                    decreases dests@.len() - j,
                {
                    proof {
                        if moves_spec(st, dy, s1, dests@) is None {
                            assert(false);
                        }
                        lemma_moves_prefix(st, dy, s1, dests@, j + 1);
                        assert(dests@.take(j + 1).drop_last() =~= dests@.take(j as int));
                    }
                    let (dest_ptr, dest_val) = dests[j];
                    ctx.go(dest_ptr);
                    ctx.add(dest_val);
                    j = j + 1;
                }
                proof {
                    assert(dests@.take(j as int) =~= dests@);
                }
                ctx.go(*source);
                ctx.push("]");
            },
            AssemblyOp::SetCell(ptr, val) => {
                ctx.go(*ptr);
                ctx.push("[-]");
                ctx.add(*val);
            },
            AssemblyOp::Add(ptr, val) => {
                ctx.go(*ptr);
                ctx.add(*val);
                assert(ctx.code@ =~= before.unwrap().1 + go_code(st, dy, before.unwrap().0, *ptr) + Seq::<char>::empty() + add_code(*val));
            },
            AssemblyOp::Out(ptr) => {
                ctx.go(*ptr);
                ctx.push(".");
            },
            AssemblyOp::In(ptr) => {
                ctx.go(*ptr);
                ctx.push(",");
            },
            AssemblyOp::Loop(condition, body) => {
                proof {
                    lemma_block_none(st, dy, body@);
                }
                ctx.go(*condition);
                ctx.push("[");
                assemble_block(ctx, body.as_slice());
                ctx.go(*condition);
                ctx.push("]");
            },
            AssemblyOp::Fetch(index) => {
                assemble_fetch(ctx, *index);
            },
            AssemblyOp::Send(index) => {
                assemble_send(ctx, *index);
            },
        }
        i = i + 1;
    }
    proof {
        assert(block@.take(i as int) =~= block@);
    }
}

} // verus!
