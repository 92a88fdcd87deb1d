use vstd::prelude::*;
use vstd::string::*;

use crate::assembly::block::{block_spec, fetch_code, go_push, moves_spec, op_spec, send_code, AsmState};
use crate::assembly::cells::{addressable, dests_within, lemma_go_static, lemma_ops_within_push, op_within, ops_within};
use crate::assembly::ctx::{add_code, go_code, go_delta, go_ok};
use crate::assembly::program::{ops_deep, AssemblyOp, OpView};
use crate::assembly::utils::repeat_seq;

verus! {

/// How far one character moves the head: right for `>`, left for `<`.
pub open spec fn shift_step(c: char) -> int {
    if c == '>' {
        1
    } else if c == '<' {
        -1
    } else {
        0
    }
}

/// How far the text moves the head when read straight through.
pub open spec fn shift(s: Seq<char>) -> int
    decreases s.len(),
{
    if s.len() == 0 {
        0
    } else {
        shift(s.drop_last()) + shift_step(s.last())
    }
}

pub proof fn lemma_shift_concat(a: Seq<char>, b: Seq<char>)
    ensures
        shift(a + b) == shift(a) + shift(b),
    decreases b.len(),
{
    if b.len() == 0 {
        assert(a + b =~= a);
    } else {
        lemma_shift_concat(a, b.drop_last());
        assert((a + b).drop_last() =~= a + b.drop_last());
        assert((a + b).last() == b.last());
    }
}

proof fn lemma_shift_one(c: char)
    ensures
        shift(seq![c]) == shift_step(c),
{
    assert(seq![c].drop_last() =~= Seq::<char>::empty());
    assert(shift(Seq::<char>::empty()) == 0);
}

proof fn lemma_shift_repeat(c: char, n: nat)
    ensures
        shift(repeat_seq(seq![c], n)) == n * shift_step(c),
    decreases n,
{
    if n > 0 {
        lemma_shift_repeat(c, (n - 1) as nat);
        lemma_shift_concat(repeat_seq(seq![c], (n - 1) as nat), seq![c]);
        lemma_shift_one(c);
        assert(n * shift_step(c) == (n - 1) * shift_step(c) + shift_step(c)) by (nonlinear_arith);
    }
}

/// The head moves that `go` emits move the head by the distance it computed.
pub proof fn lemma_go_code_shift(st: usize, dy: usize, p: usize, at: usize)
    ensures
        shift(go_code(st, dy, p, at)) == go_delta(st, dy, p, at),
{
    reveal_strlit(">");
    reveal_strlit("<");
    assert(">"@ =~= seq!['>']);
    assert("<"@ =~= seq!['<']);
    let d = go_delta(st, dy, p, at);
    if d >= 0 {
        lemma_shift_repeat('>', d as nat);
    } else {
        lemma_shift_repeat('<', (-d) as nat);
    }
}

/// Additions do not move the head.
pub proof fn lemma_add_code_shift(v: i8)
    ensures
        shift(add_code(v)) == 0,
{
    reveal_strlit("+");
    reveal_strlit("-");
    assert("+"@ =~= seq!['+']);
    assert("-"@ =~= seq!['-']);
    if v >= 0 {
        lemma_shift_repeat('+', v as nat);
        assert(add_code(v) == repeat_seq(seq!['+'], v as nat));
        assert(v as nat * shift_step('+') == 0);
    } else {
        lemma_shift_repeat('-', (-v) as nat);
        assert(add_code(v) == repeat_seq(seq!['-'], (-v) as nat));
        assert((-v) as nat * shift_step('-') == 0);
    }
}

pub proof fn lemma_literal_shifts()
    ensures
        shift("[-"@) == 0,
        shift("]"@) == 0,
        shift("[-]"@) == 0,
        shift("["@) == 0,
        shift("."@) == 0,
        shift(","@) == 0,
        shift("-"@) == 0,
        shift(Seq::<char>::empty()) == 0,
{
    reveal_strlit("[-");
    reveal_strlit("]");
    reveal_strlit("[-]");
    reveal_strlit("[");
    reveal_strlit(".");
    reveal_strlit(",");
    reveal_strlit("-");
    assert("-"@ =~= seq!['-']);
    assert("[-"@ =~= seq!['['] + seq!['-']);
    lemma_shift_concat(seq!['['], seq!['-']);
    lemma_shift_one('[');
    lemma_shift_one('-');
    assert("[-]"@ =~= seq!['['] + seq!['-'] + seq![']']);
    lemma_shift_concat(seq!['['] + seq!['-'], seq![']']);
    lemma_shift_one(']');
    assert("]"@ =~= seq![']']);
    assert("["@ =~= seq!['[']);
    assert("."@ =~= seq!['.']);
    lemma_shift_one('.');
    assert(","@ =~= seq![',']);
    lemma_shift_one(',');
}

/// A text is a prefix of itself followed by anything.
pub proof fn lemma_prefix_append(a: Seq<char>, b: Seq<char>)
    ensures
        a.is_prefix_of(a + b),
{
    assert(a =~= (a + b).subrange(0, a.len() as int));
}

pub proof fn lemma_prefix_trans(a: Seq<char>, b: Seq<char>, c: Seq<char>)
    requires
        a.is_prefix_of(b),
        b.is_prefix_of(c),
    ensures
        a.is_prefix_of(c),
{
    assert(a =~= c.subrange(0, a.len() as int)) by {
        assert forall|i: int| 0 <= i < a.len() implies a[i] == c.subrange(0, a.len() as int)[i] by {
            assert(a[i] == b[i]);
            assert(b[i] == c[i]);
        }
    }
}

/// What a text adds to its prefix.
pub proof fn lemma_prefix_rest(a: Seq<char>, b: Seq<char>)
    requires
        a.is_prefix_of(b),
    ensures
        b == a + b.subrange(a.len() as int, b.len() as int),
{
    assert(b =~= a + b.subrange(a.len() as int, b.len() as int));
}

/// Going to cell `at` and emitting a text that does not move the head
/// shifts the text by exactly the distance travelled.
pub proof fn lemma_go_push_shift(st: usize, dy: usize, p: usize, code: Seq<char>, at: usize, text: Seq<char>)
    requires
        p <= isize::MAX,
        at <= isize::MAX,
        shift(text) == 0,
    ensures
        go_push(st, dy, Some((p, code)), at, text) == Some((at, code + go_code(st, dy, p, at) + text)),
        shift(code + go_code(st, dy, p, at) + text) == shift(code) + at - p,
        shift(go_code(st, dy, p, at)) == at - p,
        code.is_prefix_of(code + go_code(st, dy, p, at) + text),
{
    lemma_go_static(st, dy, p, at);
    lemma_go_code_shift(st, dy, p, at);
    lemma_shift_concat(code, go_code(st, dy, p, at));
    lemma_shift_concat(code + go_code(st, dy, p, at), text);
    assert(code + go_code(st, dy, p, at) + text =~= code + (go_code(st, dy, p, at) + text));
    lemma_prefix_append(code, go_code(st, dy, p, at) + text);
}

pub proof fn lemma_moves_shift(st: usize, dy: usize, p: usize, code: Seq<char>, dests: Seq<(usize, i8)>)
    requires
        p <= isize::MAX,
        dests_within(dests, addressable()),
    ensures
        moves_spec(st, dy, Some((p, code)), dests) matches Some((p2, code2)) && p2 <= isize::MAX && shift(code2)
            == shift(code) + p2 - p && code.is_prefix_of(code2),
    decreases dests.len(),
{
    if dests.len() > 0 {
        let d = dests.drop_last();
        assert(dests_within(d, addressable())) by {
            assert forall|j: int| 0 <= j < d.len() implies d[j].0 < addressable() by {
                assert(d[j] == dests[j]);
            }
        }
        lemma_moves_shift(st, dy, p, code, d);
        let (p1, c1) = moves_spec(st, dy, Some((p, code)), d).unwrap();
        let last = dests.last();
        assert(last.0 < addressable()) by {
            assert(dests[dests.len() - 1].0 < addressable());
        }
        lemma_literal_shifts();
        lemma_go_push_shift(st, dy, p1, c1, last.0, Seq::empty());
        let c2 = c1 + go_code(st, dy, p1, last.0) + Seq::empty();
        lemma_add_code_shift(last.1);
        lemma_shift_concat(c2, add_code(last.1));
        lemma_prefix_append(c2, add_code(last.1));
        lemma_prefix_trans(code, c1, c2);
        lemma_prefix_trans(code, c2, c2 + add_code(last.1));
    } else {
        assert(code =~= code.subrange(0, code.len() as int));
    }
}

/// Where an assembly run stands, its text starts with `code`.
pub open spec fn extends(code: Seq<char>, s: AsmState) -> bool {
    s matches Some((_, c)) ==> code.is_prefix_of(c)
}

proof fn lemma_go_push_extends(st: usize, dy: usize, code: Seq<char>, s: AsmState, at: usize, text: Seq<char>)
    requires
        extends(code, s),
    ensures
        extends(code, go_push(st, dy, s, at, text)),
{
    if let Some((p, c)) = s {
        if go_ok(st, dy, p, at) {
            assert(c + go_code(st, dy, p, at) + text =~= c + (go_code(st, dy, p, at) + text));
            lemma_prefix_append(c, go_code(st, dy, p, at) + text);
            lemma_prefix_trans(code, c, c + go_code(st, dy, p, at) + text);
        }
    }
}

proof fn lemma_then_extends(code: Seq<char>, s: AsmState, tail: Seq<char>)
    requires
        extends(code, s),
    ensures
        extends(
            code,
            match s {
                Some((p, c)) => Some((p, c + tail)),
                None => None,
            },
        ),
{
    if let Some((p, c)) = s {
        lemma_prefix_append(c, tail);
        lemma_prefix_trans(code, c, c + tail);
    }
}

proof fn lemma_moves_extends(st: usize, dy: usize, code: Seq<char>, s: AsmState, dests: Seq<(usize, i8)>)
    requires
        extends(code, s),
    ensures
        extends(code, moves_spec(st, dy, s, dests)),
    decreases dests.len(),
{
    if dests.len() > 0 {
        lemma_moves_extends(st, dy, code, s, dests.drop_last());
        let s1 = go_push(st, dy, moves_spec(st, dy, s, dests.drop_last()), dests.last().0, Seq::empty());
        lemma_go_push_extends(st, dy, code, moves_spec(st, dy, s, dests.drop_last()), dests.last().0, Seq::empty());
        lemma_then_extends(code, s1, add_code(dests.last().1));
    }
}

/// Assembling one operation only ever appends to the text, from any state.
pub proof fn lemma_op_extends(st: usize, dy: usize, code: Seq<char>, s: AsmState, op: AssemblyOp)
    requires
        extends(code, s),
    ensures
        extends(code, op_spec(st, dy, s, op)),
    decreases op,
{
    match op {
        AssemblyOp::Move(source, dests) => {
            let s1 = go_push(st, dy, s, source, "[-"@);
            lemma_go_push_extends(st, dy, code, s, source, "[-"@);
            lemma_moves_extends(st, dy, code, s1, dests@);
            lemma_go_push_extends(st, dy, code, moves_spec(st, dy, s1, dests@), source, "]"@);
        },
        AssemblyOp::SetCell(ptr, val) => {
            lemma_go_push_extends(st, dy, code, s, ptr, "[-]"@);
            lemma_then_extends(code, go_push(st, dy, s, ptr, "[-]"@), add_code(val));
        },
        AssemblyOp::Add(ptr, val) => {
            lemma_go_push_extends(st, dy, code, s, ptr, Seq::empty());
            lemma_then_extends(code, go_push(st, dy, s, ptr, Seq::empty()), add_code(val));
        },
        AssemblyOp::Out(ptr) => {
            lemma_go_push_extends(st, dy, code, s, ptr, "."@);
        },
        AssemblyOp::In(ptr) => {
            lemma_go_push_extends(st, dy, code, s, ptr, ","@);
        },
        AssemblyOp::Loop(cond, body) => {
            let s1 = go_push(st, dy, s, cond, "["@);
            lemma_go_push_extends(st, dy, code, s, cond, "["@);
            lemma_block_extends(st, dy, code, s1, body@);
            lemma_go_push_extends(st, dy, code, block_spec(st, dy, s1, body@), cond, "]"@);
        },
        AssemblyOp::Fetch(index) => {
            if let Some((p, c)) = s {
                lemma_then_extends(code, s, fetch_code(st, dy, p as int, index as int));
            }
        },
        AssemblyOp::Send(index) => {
            if let Some((p, c)) = s {
                lemma_then_extends(code, s, send_code(st, dy, p as int, index as int));
            }
        },
    }
}

/// Assembling a block only ever appends to the text, from any state and
/// for any operations, the dynamic memory's included: the text found is
/// kept, unchanged, at the start of the text left.
pub proof fn lemma_block_extends(st: usize, dy: usize, code: Seq<char>, s: AsmState, ops: Seq<AssemblyOp>)
    requires
        extends(code, s),
    ensures
        extends(code, block_spec(st, dy, s, ops)),
    decreases ops,
{
    if ops.len() > 0 {
        lemma_block_extends(st, dy, code, s, ops.drop_last());
        lemma_op_extends(st, dy, code, block_spec(st, dy, s, ops.drop_last()), ops.last());
    }
}

/// For an operation on static cells only, at most `isize::MAX`, the head
/// moves of the emitted text add up to where assembling records the head
/// afterwards.
pub proof fn lemma_op_tracking(st: usize, dy: usize, p: usize, code: Seq<char>, op: AssemblyOp)
    requires
        p <= isize::MAX,
        op_within(op.deep(), addressable()),
    ensures
        op_spec(st, dy, Some((p, code)), op) matches Some((p2, code2)) && p2 <= isize::MAX && shift(code2) == shift(
            code,
        ) + p2 - p && code.is_prefix_of(code2),
    decreases op,
{
    lemma_literal_shifts();
    match op {
        AssemblyOp::Move(source, dests) => {
            assert(op.deep() == OpView::Move(source, dests@));
            let g = go_code(st, dy, p, source);
            lemma_go_push_shift(st, dy, p, code, source, "[-"@);
            let c1 = code + g + "[-"@;
            lemma_moves_shift(st, dy, source, c1, dests@);
            let (p2, c2) = moves_spec(st, dy, Some((source, c1)), dests@).unwrap();
            lemma_go_push_shift(st, dy, p2, c2, source, "]"@);
            let g2 = go_code(st, dy, p2, source);
            lemma_prefix_trans(code, c1, c2);
            lemma_prefix_trans(code, c2, c2 + g2 + "]"@);
        },
        AssemblyOp::SetCell(ptr, val) => {
            lemma_go_push_shift(st, dy, p, code, ptr, "[-]"@);
            lemma_add_code_shift(val);
            let c1 = code + go_code(st, dy, p, ptr) + "[-]"@;
            lemma_shift_concat(c1, add_code(val));
            lemma_prefix_append(c1, add_code(val));
            lemma_prefix_trans(code, c1, c1 + add_code(val));
        },
        AssemblyOp::Add(ptr, val) => {
            lemma_go_push_shift(st, dy, p, code, ptr, Seq::empty());
            lemma_add_code_shift(val);
            let c1 = code + go_code(st, dy, p, ptr) + Seq::empty();
            lemma_shift_concat(c1, add_code(val));
            lemma_prefix_append(c1, add_code(val));
            lemma_prefix_trans(code, c1, c1 + add_code(val));
        },
        AssemblyOp::Out(ptr) => {
            lemma_go_push_shift(st, dy, p, code, ptr, "."@);
        },
        AssemblyOp::In(ptr) => {
            lemma_go_push_shift(st, dy, p, code, ptr, ","@);
        },
        AssemblyOp::Loop(cond, body) => {
            let g = go_code(st, dy, p, cond);
            lemma_go_push_shift(st, dy, p, code, cond, "["@);
            let c1 = code + g + "["@;
            lemma_block_tracking(st, dy, cond, c1, body@);
            let (p2, c2) = block_spec(st, dy, Some((cond, c1)), body@).unwrap();
            lemma_go_push_shift(st, dy, p2, c2, cond, "]"@);
            let g2 = go_code(st, dy, p2, cond);
            lemma_prefix_trans(code, c1, c2);
            lemma_prefix_trans(code, c2, c2 + g2 + "]"@);
        },
        AssemblyOp::Fetch(_) | AssemblyOp::Send(_) => {},
    }
}

/// For a block on static cells only, at most `isize::MAX`, the head moves
/// of the emitted text add up to where assembling records the head
/// afterwards.
pub proof fn lemma_block_tracking(st: usize, dy: usize, p: usize, code: Seq<char>, ops: Seq<AssemblyOp>)
    requires
        p <= isize::MAX,
        ops_within(ops_deep(ops), addressable()),
    ensures
        block_spec(st, dy, Some((p, code)), ops) matches Some((p2, code2)) && p2 <= isize::MAX && shift(code2)
            == shift(code) + p2 - p && code.is_prefix_of(code2),
    decreases ops,
{
    if ops.len() > 0 {
        lemma_ops_within_push(ops_deep(ops.drop_last()), ops.last().deep(), addressable());
        lemma_block_tracking(st, dy, p, code, ops.drop_last());
        let (p1, c1) = block_spec(st, dy, Some((p, code)), ops.drop_last()).unwrap();
        lemma_op_tracking(st, dy, p1, c1, ops.last());
        let c2 = op_spec(st, dy, Some((p1, c1)), ops.last()).unwrap().1;
        lemma_prefix_trans(code, c1, c2);
    } else {
        assert(code =~= code.subrange(0, code.len() as int));
    }
}

} // verus!
