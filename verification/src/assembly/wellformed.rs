use vstd::prelude::*;

use crate::assembly::block::{block_spec, fetch_code, gc, go_push, moves_spec, op_spec, send_code, AsmState};
use crate::assembly::program::{AssemblyOp, AssemblyProgram};
use crate::assembly::ctx::{add_code, go_code, go_delta};
use crate::assembly::utils::{repeat_seq, repeat_spec};

verus! {

/// The eight brainfuck commands.
pub open spec fn is_bf_command(c: char) -> bool {
    c == '+' || c == '-' || c == '<' || c == '>' || c == '[' || c == ']' || c == '.' || c == ','
}

/// How far a character opens (`[`) or closes (`]`) a loop.
pub open spec fn bracket_step(c: char) -> int {
    if c == '[' {
        1
    } else if c == ']' {
        -1
    } else {
        0
    }
}

/// Loop nesting depth at the end of `s`.
pub open spec fn depth(s: Seq<char>) -> int
    decreases s.len(),
{
    if s.len() == 0 {
        0
    } else {
        depth(s.drop_last()) + bracket_step(s.last())
    }
}

/// Every `[` of `s` is closed by a later `]` and every `]` closes an earlier `[`.
pub open spec fn brackets_balanced(s: Seq<char>) -> bool {
    &&& depth(s) == 0
    &&& forall|i: int| 0 <= i <= s.len() ==> depth(#[trigger] s.take(i)) >= 0
}

/// `s` is a brainfuck program: commands only, loops properly nested.
pub open spec fn is_bf_program(s: Seq<char>) -> bool {
    &&& forall|i: int| 0 <= i < s.len() ==> is_bf_command(#[trigger] s[i])
    &&& brackets_balanced(s)
}

/// The lowest depth reached on any prefix of `s`.
pub open spec fn low(s: Seq<char>) -> int
    decreases s.len(),
{
    if s.len() == 0 {
        0
    } else {
        let l = low(s.drop_last());
        let d = depth(s);
        if l < d { l } else { d }
    }
}

pub open spec fn all_commands(s: Seq<char>) -> bool {
    forall|i: int| 0 <= i < s.len() ==> is_bf_command(#[trigger] s[i])
}

/// Text emitted at nesting depth `d`: commands only, never closing below zero.
pub open spec fn emitted_at(s: Seq<char>, d: int) -> bool {
    &&& all_commands(s)
    &&& depth(s) == d
    &&& low(s) >= 0
}

pub proof fn lemma_concat(a: Seq<char>, b: Seq<char>)
    ensures
        depth(a + b) == depth(a) + depth(b),
        low(a + b) == (if low(a) < depth(a) + low(b) { low(a) } else { depth(a) + low(b) }),
        all_commands(a) && all_commands(b) ==> all_commands(a + b),
    decreases b.len(),
{
    if b.len() == 0 {
        assert(a + b =~= a);
        assert(low(a) <= depth(a)) by { lemma_low_le_depth(a); }
    } else {
        lemma_concat(a, b.drop_last());
        assert((a + b).drop_last() =~= a + b.drop_last());
        assert((a + b).last() == b.last());
        assert(low(b) <= depth(b)) by { lemma_low_le_depth(b); }
    }
    if all_commands(a) && all_commands(b) {
        assert forall|i: int| 0 <= i < (a + b).len() implies is_bf_command(#[trigger] (a + b)[i]) by {
            if i < a.len() {
                assert((a + b)[i] == a[i]);
            } else {
                assert((a + b)[i] == b[i - a.len()]);
            }
        }
    }
}

pub proof fn lemma_low_le_depth(s: Seq<char>)
    ensures
        low(s) <= depth(s),
        low(s) <= 0,
    decreases s.len(),
{
    if s.len() > 0 {
        lemma_low_le_depth(s.drop_last());
    }
}

/// Low is the least depth over all prefixes.
pub proof fn lemma_low_prefixes(s: Seq<char>)
    ensures
        forall|i: int| 0 <= i <= s.len() ==> low(s) <= depth(#[trigger] s.take(i)),
        exists|i: int| 0 <= i <= s.len() && low(s) == depth(#[trigger] s.take(i)),
    decreases s.len(),
{
    if s.len() == 0 {
        assert(s.take(0) =~= s);
    } else {
        lemma_low_prefixes(s.drop_last());
        assert forall|i: int| 0 <= i <= s.len() implies low(s) <= depth(#[trigger] s.take(i)) by {
            if i == s.len() {
                assert(s.take(i) =~= s);
            } else {
                assert(s.drop_last().take(i) =~= s.take(i));
            }
        }
        let j = choose|j: int| 0 <= j <= s.drop_last().len() && low(s.drop_last()) == depth(#[trigger] s.drop_last().take(j));
        assert(s.drop_last().take(j) =~= s.take(j));
        assert(s.take(s.len() as int) =~= s);
    }
}

pub proof fn lemma_emitted_program(s: Seq<char>)
    requires
        emitted_at(s, 0),
    ensures
        is_bf_program(s),
{
    lemma_low_prefixes(s);
}

/// A text with no brackets sits at depth zero throughout.
pub proof fn lemma_flat(s: Seq<char>)
    requires
        forall|i: int| 0 <= i < s.len() ==> bracket_step(#[trigger] s[i]) == 0,
    ensures
        depth(s) == 0,
        low(s) == 0,
    decreases s.len(),
{
    if s.len() > 0 {
        lemma_flat(s.drop_last());
    }
}

/// Repeating a single command that is no bracket gives flat commands.
pub proof fn lemma_repeat_flat(unit: Seq<char>, n: nat)
    requires
        unit.len() == 1,
        is_bf_command(unit[0]),
        bracket_step(unit[0]) == 0,
    ensures
        all_commands(repeat_seq(unit, n)),
        depth(repeat_seq(unit, n)) == 0,
        low(repeat_seq(unit, n)) == 0,
        forall|i: int| 0 <= i < repeat_seq(unit, n).len() ==> bracket_step(#[trigger] repeat_seq(unit, n)[i]) == 0,
    decreases n,
{
    if n > 0 {
        lemma_repeat_flat(unit, (n - 1) as nat);
        let r = repeat_seq(unit, (n - 1) as nat);
        assert forall|i: int| 0 <= i < (r + unit).len() implies is_bf_command(#[trigger] (r + unit)[i]) && bracket_step((r + unit)[i]) == 0 by {
            if i < r.len() {
                assert((r + unit)[i] == r[i]);
            } else {
                assert((r + unit)[i] == unit[i - r.len()]);
            }
        }
    }
    lemma_flat(repeat_seq(unit, n));
}

pub proof fn lemma_push(s: Seq<char>, c: char)
    ensures
        depth(s.push(c)) == depth(s) + bracket_step(c),
        low(s.push(c)) == (if low(s) < depth(s) + bracket_step(c) { low(s) } else { depth(s) + bracket_step(c) }),
        all_commands(s) && is_bf_command(c) ==> all_commands(s.push(c)),
{
    assert(s.push(c).drop_last() =~= s);
    if all_commands(s) && is_bf_command(c) {
        assert forall|i: int| 0 <= i < s.push(c).len() implies is_bf_command(#[trigger] s.push(c)[i]) by {
            if i < s.len() {
                assert(s.push(c)[i] == s[i]);
            }
        }
    }
}

proof fn lemma_literal_open()
    ensures
        all_commands("["@),
        depth("["@) == 1,
        low("["@) == 0,
{
    reveal_strlit("[");
    assert("["@ =~= Seq::<char>::empty().push('['));
    lemma_push(Seq::<char>::empty(), '[');
}

proof fn lemma_literal_close()
    ensures
        all_commands("]"@),
        depth("]"@) == -1,
        low("]"@) == -1,
{
    reveal_strlit("]");
    assert("]"@ =~= Seq::<char>::empty().push(']'));
    lemma_push(Seq::<char>::empty(), ']');
}

proof fn lemma_literal_clear()
    ensures
        all_commands("[-]"@),
        depth("[-]"@) == 0,
        low("[-]"@) == 0,
{
    reveal_strlit("[-]");
    assert("[-]"@ =~= Seq::<char>::empty().push('[').push('-').push(']'));
    lemma_push(Seq::<char>::empty(), '[');
    lemma_push(Seq::<char>::empty().push('['), '-');
    lemma_push(Seq::<char>::empty().push('[').push('-'), ']');
}

proof fn lemma_literal_open_dec()
    ensures
        all_commands("[-"@),
        depth("[-"@) == 1,
        low("[-"@) == 0,
{
    reveal_strlit("[-");
    assert("[-"@ =~= Seq::<char>::empty().push('[').push('-'));
    lemma_push(Seq::<char>::empty(), '[');
    lemma_push(Seq::<char>::empty().push('['), '-');
}

proof fn lemma_literal_close_inc()
    ensures
        all_commands("]+"@),
        depth("]+"@) == -1,
        low("]+"@) == -1,
{
    reveal_strlit("]+");
    assert("]+"@ =~= Seq::<char>::empty().push(']').push('+'));
    lemma_push(Seq::<char>::empty(), ']');
    lemma_push(Seq::<char>::empty().push(']'), '+');
}

proof fn lemma_literal_inc_open()
    ensures
        all_commands("+["@),
        depth("+["@) == 1,
        low("+["@) == 0,
{
    reveal_strlit("+[");
    assert("+["@ =~= Seq::<char>::empty().push('+').push('['));
    lemma_push(Seq::<char>::empty(), '+');
    lemma_push(Seq::<char>::empty().push('+'), '[');
}

proof fn lemma_literal_dec()
    ensures
        all_commands("-"@),
        depth("-"@) == 0,
        low("-"@) == 0,
{
    reveal_strlit("-");
    assert("-"@ =~= Seq::<char>::empty().push('-'));
    lemma_push(Seq::<char>::empty(), '-');
}

proof fn lemma_literal_inc()
    ensures
        all_commands("+"@),
        depth("+"@) == 0,
        low("+"@) == 0,
{
    reveal_strlit("+");
    assert("+"@ =~= Seq::<char>::empty().push('+'));
    lemma_push(Seq::<char>::empty(), '+');
}

proof fn lemma_literal_out()
    ensures
        all_commands("."@),
        depth("."@) == 0,
        low("."@) == 0,
{
    reveal_strlit(".");
    assert("."@ =~= Seq::<char>::empty().push('.'));
    lemma_push(Seq::<char>::empty(), '.');
}

proof fn lemma_literal_in()
    ensures
        all_commands(","@),
        depth(","@) == 0,
        low(","@) == 0,
{
    reveal_strlit(",");
    assert(","@ =~= Seq::<char>::empty().push(','));
    lemma_push(Seq::<char>::empty(), ',');
}

/// The head moves of `go` are flat commands.
proof fn lemma_go_flat(st: usize, dy: usize, from: int, to: int)
    ensures
        emitted_at(gc(st, dy, from, to), 0),
{
    reveal_strlit(">");
    reveal_strlit("<");
    lemma_repeat_flat(">"@, (go_delta(st, dy, from as usize, to as usize)) as nat);
    lemma_repeat_flat("<"@, (-go_delta(st, dy, from as usize, to as usize)) as nat);
}

/// The `+`/`-` run of `add` is flat commands.
proof fn lemma_add_flat(val: i8)
    ensures
        emitted_at(add_code(val), 0),
{
    reveal_strlit("+");
    reveal_strlit("-");
    lemma_repeat_flat("+"@, val as nat);
    lemma_repeat_flat("-"@, (-val) as nat);
}

/// The text of `Fetch` is a flat run of commands with balanced loops.
proof fn lemma_fetch_code(st: usize, dy: usize, p: int, index: int)
    ensures
        emitted_at(fetch_code(st, dy, p, index), 0),
{
    let b = dy + 2;
    let a = st + b;
    let t = a + 1;
    let v = a - 1 - index;

    lemma_go_flat(st, dy, p, a);
    lemma_literal_open();
    lemma_go_flat(st, dy, a, a + b);
    lemma_literal_clear();
    lemma_go_flat(st, dy, a + b, a);
    lemma_literal_dec();
    lemma_literal_open_dec();
    lemma_go_flat(st, dy, a, a + b);
    lemma_literal_inc();
    lemma_go_flat(st, dy, a + b, a);
    lemma_literal_close_inc();
    lemma_go_flat(st, dy, a, a + b);
    lemma_literal_close();
    lemma_go_flat(st, dy, a, v);
    lemma_literal_open_dec();
    lemma_go_flat(st, dy, v, a);
    lemma_literal_inc();
    lemma_go_flat(st, dy, a, v);
    lemma_literal_close();
    lemma_go_flat(st, dy, v, a);
    lemma_literal_open_dec();
    lemma_go_flat(st, dy, a, v);
    lemma_literal_inc();
    lemma_go_flat(st, dy, v, t);
    lemma_literal_inc();
    lemma_go_flat(st, dy, t, a);
    lemma_literal_close();
    lemma_go_flat(st, dy, a, a);
    lemma_literal_inc_open();
    lemma_go_flat(st, dy, a, t - b);
    lemma_literal_clear();
    lemma_go_flat(st, dy, t - b, t);
    lemma_literal_open_dec();
    lemma_go_flat(st, dy, t, t - b);
    lemma_literal_inc();
    lemma_go_flat(st, dy, t - b, t);
    lemma_literal_close();
    lemma_go_flat(st, dy, t, a - b);
    lemma_literal_close();
    lemma_concat(gc(st, dy, p, a), "["@);
    lemma_concat(gc(st, dy, p, a) + "["@, gc(st, dy, a, a + b));
    lemma_concat(gc(st, dy, p, a) + "["@ + gc(st, dy, a, a + b), "[-]"@);
    lemma_concat(gc(st, dy, p, a) + "["@ + gc(st, dy, a, a + b) + "[-]"@, gc(st, dy, a + b, a));
    lemma_concat(gc(st, dy, p, a) + "["@ + gc(st, dy, a, a + b) + "[-]"@ + gc(st, dy, a + b, a), "-"@);
    lemma_concat(gc(st, dy, p, a) + "["@ + gc(st, dy, a, a + b) + "[-]"@ + gc(st, dy, a + b, a) + "-"@, "[-"@);
    lemma_concat(gc(st, dy, p, a) + "["@ + gc(st, dy, a, a + b) + "[-]"@ + gc(st, dy, a + b, a) + "-"@ + "[-"@, gc(st, dy, a, a + b));
    lemma_concat(gc(st, dy, p, a) + "["@ + gc(st, dy, a, a + b) + "[-]"@ + gc(st, dy, a + b, a) + "-"@ + "[-"@ + gc(st, dy, a, a + b), "+"@);
    lemma_concat(gc(st, dy, p, a) + "["@ + gc(st, dy, a, a + b) + "[-]"@ + gc(st, dy, a + b, a) + "-"@ + "[-"@ + gc(st, dy, a, a + b) + "+"@, gc(st, dy, a + b, a));
    lemma_concat(gc(st, dy, p, a) + "["@ + gc(st, dy, a, a + b) + "[-]"@ + gc(st, dy, a + b, a) + "-"@ + "[-"@ + gc(st, dy, a, a + b) + "+"@ + gc(st, dy, a + b, a), "]+"@);
    lemma_concat(gc(st, dy, p, a) + "["@ + gc(st, dy, a, a + b) + "[-]"@ + gc(st, dy, a + b, a) + "-"@ + "[-"@ + gc(st, dy, a, a + b) + "+"@ + gc(st, dy, a + b, a) + "]+"@, gc(st, dy, a, a + b));
    lemma_concat(gc(st, dy, p, a) + "["@ + gc(st, dy, a, a + b) + "[-]"@ + gc(st, dy, a + b, a) + "-"@ + "[-"@ + gc(st, dy, a, a + b) + "+"@ + gc(st, dy, a + b, a) + "]+"@ + gc(st, dy, a, a + b), "]"@);
    lemma_concat(gc(st, dy, p, a) + "["@ + gc(st, dy, a, a + b) + "[-]"@ + gc(st, dy, a + b, a) + "-"@ + "[-"@ + gc(st, dy, a, a + b) + "+"@ + gc(st, dy, a + b, a) + "]+"@ + gc(st, dy, a, a + b) + "]"@, gc(st, dy, a, v));
    lemma_concat(gc(st, dy, p, a) + "["@ + gc(st, dy, a, a + b) + "[-]"@ + gc(st, dy, a + b, a) + "-"@ + "[-"@ + gc(st, dy, a, a + b) + "+"@ + gc(st, dy, a + b, a) + "]+"@ + gc(st, dy, a, a + b) + "]"@ + gc(st, dy, a, v), "[-"@);
    lemma_concat(gc(st, dy, p, a) + "["@ + gc(st, dy, a, a + b) + "[-]"@ + gc(st, dy, a + b, a) + "-"@ + "[-"@ + gc(st, dy, a, a + b) + "+"@ + gc(st, dy, a + b, a) + "]+"@ + gc(st, dy, a, a + b) + "]"@ + gc(st, dy, a, v) + "[-"@, gc(st, dy, v, a));
    lemma_concat(gc(st, dy, p, a) + "["@ + gc(st, dy, a, a + b) + "[-]"@ + gc(st, dy, a + b, a) + "-"@ + "[-"@ + gc(st, dy, a, a + b) + "+"@ + gc(st, dy, a + b, a) + "]+"@ + gc(st, dy, a, a + b) + "]"@ + gc(st, dy, a, v) + "[-"@ + gc(st, dy, v, a), "+"@);
    lemma_concat(gc(st, dy, p, a) + "["@ + gc(st, dy, a, a + b) + "[-]"@ + gc(st, dy, a + b, a) + "-"@ + "[-"@ + gc(st, dy, a, a + b) + "+"@ + gc(st, dy, a + b, a) + "]+"@ + gc(st, dy, a, a + b) + "]"@ + gc(st, dy, a, v) + "[-"@ + gc(st, dy, v, a) + "+"@, gc(st, dy, a, v));
    lemma_concat(gc(st, dy, p, a) + "["@ + gc(st, dy, a, a + b) + "[-]"@ + gc(st, dy, a + b, a) + "-"@ + "[-"@ + gc(st, dy, a, a + b) + "+"@ + gc(st, dy, a + b, a) + "]+"@ + gc(st, dy, a, a + b) + "]"@ + gc(st, dy, a, v) + "[-"@ + gc(st, dy, v, a) + "+"@ + gc(st, dy, a, v), "]"@);
    lemma_concat(gc(st, dy, p, a) + "["@ + gc(st, dy, a, a + b) + "[-]"@ + gc(st, dy, a + b, a) + "-"@ + "[-"@ + gc(st, dy, a, a + b) + "+"@ + gc(st, dy, a + b, a) + "]+"@ + gc(st, dy, a, a + b) + "]"@ + gc(st, dy, a, v) + "[-"@ + gc(st, dy, v, a) + "+"@ + gc(st, dy, a, v) + "]"@, gc(st, dy, v, a));
    lemma_concat(gc(st, dy, p, a) + "["@ + gc(st, dy, a, a + b) + "[-]"@ + gc(st, dy, a + b, a) + "-"@ + "[-"@ + gc(st, dy, a, a + b) + "+"@ + gc(st, dy, a + b, a) + "]+"@ + gc(st, dy, a, a + b) + "]"@ + gc(st, dy, a, v) + "[-"@ + gc(st, dy, v, a) + "+"@ + gc(st, dy, a, v) + "]"@ + gc(st, dy, v, a), "[-"@);
    lemma_concat(gc(st, dy, p, a) + "["@ + gc(st, dy, a, a + b) + "[-]"@ + gc(st, dy, a + b, a) + "-"@ + "[-"@ + gc(st, dy, a, a + b) + "+"@ + gc(st, dy, a + b, a) + "]+"@ + gc(st, dy, a, a + b) + "]"@ + gc(st, dy, a, v) + "[-"@ + gc(st, dy, v, a) + "+"@ + gc(st, dy, a, v) + "]"@ + gc(st, dy, v, a) + "[-"@, gc(st, dy, a, v));
    lemma_concat(gc(st, dy, p, a) + "["@ + gc(st, dy, a, a + b) + "[-]"@ + gc(st, dy, a + b, a) + "-"@ + "[-"@ + gc(st, dy, a, a + b) + "+"@ + gc(st, dy, a + b, a) + "]+"@ + gc(st, dy, a, a + b) + "]"@ + gc(st, dy, a, v) + "[-"@ + gc(st, dy, v, a) + "+"@ + gc(st, dy, a, v) + "]"@ + gc(st, dy, v, a) + "[-"@ + gc(st, dy, a, v), "+"@);
    lemma_concat(gc(st, dy, p, a) + "["@ + gc(st, dy, a, a + b) + "[-]"@ + gc(st, dy, a + b, a) + "-"@ + "[-"@ + gc(st, dy, a, a + b) + "+"@ + gc(st, dy, a + b, a) + "]+"@ + gc(st, dy, a, a + b) + "]"@ + gc(st, dy, a, v) + "[-"@ + gc(st, dy, v, a) + "+"@ + gc(st, dy, a, v) + "]"@ + gc(st, dy, v, a) + "[-"@ + gc(st, dy, a, v) + "+"@, gc(st, dy, v, t));
    lemma_concat(gc(st, dy, p, a) + "["@ + gc(st, dy, a, a + b) + "[-]"@ + gc(st, dy, a + b, a) + "-"@ + "[-"@ + gc(st, dy, a, a + b) + "+"@ + gc(st, dy, a + b, a) + "]+"@ + gc(st, dy, a, a + b) + "]"@ + gc(st, dy, a, v) + "[-"@ + gc(st, dy, v, a) + "+"@ + gc(st, dy, a, v) + "]"@ + gc(st, dy, v, a) + "[-"@ + gc(st, dy, a, v) + "+"@ + gc(st, dy, v, t), "+"@);
    lemma_concat(gc(st, dy, p, a) + "["@ + gc(st, dy, a, a + b) + "[-]"@ + gc(st, dy, a + b, a) + "-"@ + "[-"@ + gc(st, dy, a, a + b) + "+"@ + gc(st, dy, a + b, a) + "]+"@ + gc(st, dy, a, a + b) + "]"@ + gc(st, dy, a, v) + "[-"@ + gc(st, dy, v, a) + "+"@ + gc(st, dy, a, v) + "]"@ + gc(st, dy, v, a) + "[-"@ + gc(st, dy, a, v) + "+"@ + gc(st, dy, v, t) + "+"@, gc(st, dy, t, a));
    lemma_concat(gc(st, dy, p, a) + "["@ + gc(st, dy, a, a + b) + "[-]"@ + gc(st, dy, a + b, a) + "-"@ + "[-"@ + gc(st, dy, a, a + b) + "+"@ + gc(st, dy, a + b, a) + "]+"@ + gc(st, dy, a, a + b) + "]"@ + gc(st, dy, a, v) + "[-"@ + gc(st, dy, v, a) + "+"@ + gc(st, dy, a, v) + "]"@ + gc(st, dy, v, a) + "[-"@ + gc(st, dy, a, v) + "+"@ + gc(st, dy, v, t) + "+"@ + gc(st, dy, t, a), "]"@);
    lemma_concat(gc(st, dy, p, a) + "["@ + gc(st, dy, a, a + b) + "[-]"@ + gc(st, dy, a + b, a) + "-"@ + "[-"@ + gc(st, dy, a, a + b) + "+"@ + gc(st, dy, a + b, a) + "]+"@ + gc(st, dy, a, a + b) + "]"@ + gc(st, dy, a, v) + "[-"@ + gc(st, dy, v, a) + "+"@ + gc(st, dy, a, v) + "]"@ + gc(st, dy, v, a) + "[-"@ + gc(st, dy, a, v) + "+"@ + gc(st, dy, v, t) + "+"@ + gc(st, dy, t, a) + "]"@, gc(st, dy, a, a));
    lemma_concat(gc(st, dy, p, a) + "["@ + gc(st, dy, a, a + b) + "[-]"@ + gc(st, dy, a + b, a) + "-"@ + "[-"@ + gc(st, dy, a, a + b) + "+"@ + gc(st, dy, a + b, a) + "]+"@ + gc(st, dy, a, a + b) + "]"@ + gc(st, dy, a, v) + "[-"@ + gc(st, dy, v, a) + "+"@ + gc(st, dy, a, v) + "]"@ + gc(st, dy, v, a) + "[-"@ + gc(st, dy, a, v) + "+"@ + gc(st, dy, v, t) + "+"@ + gc(st, dy, t, a) + "]"@ + gc(st, dy, a, a), "+["@);
    lemma_concat(gc(st, dy, p, a) + "["@ + gc(st, dy, a, a + b) + "[-]"@ + gc(st, dy, a + b, a) + "-"@ + "[-"@ + gc(st, dy, a, a + b) + "+"@ + gc(st, dy, a + b, a) + "]+"@ + gc(st, dy, a, a + b) + "]"@ + gc(st, dy, a, v) + "[-"@ + gc(st, dy, v, a) + "+"@ + gc(st, dy, a, v) + "]"@ + gc(st, dy, v, a) + "[-"@ + gc(st, dy, a, v) + "+"@ + gc(st, dy, v, t) + "+"@ + gc(st, dy, t, a) + "]"@ + gc(st, dy, a, a) + "+["@, gc(st, dy, a, t - b));
    lemma_concat(gc(st, dy, p, a) + "["@ + gc(st, dy, a, a + b) + "[-]"@ + gc(st, dy, a + b, a) + "-"@ + "[-"@ + gc(st, dy, a, a + b) + "+"@ + gc(st, dy, a + b, a) + "]+"@ + gc(st, dy, a, a + b) + "]"@ + gc(st, dy, a, v) + "[-"@ + gc(st, dy, v, a) + "+"@ + gc(st, dy, a, v) + "]"@ + gc(st, dy, v, a) + "[-"@ + gc(st, dy, a, v) + "+"@ + gc(st, dy, v, t) + "+"@ + gc(st, dy, t, a) + "]"@ + gc(st, dy, a, a) + "+["@ + gc(st, dy, a, t - b), "[-]"@);
    lemma_concat(gc(st, dy, p, a) + "["@ + gc(st, dy, a, a + b) + "[-]"@ + gc(st, dy, a + b, a) + "-"@ + "[-"@ + gc(st, dy, a, a + b) + "+"@ + gc(st, dy, a + b, a) + "]+"@ + gc(st, dy, a, a + b) + "]"@ + gc(st, dy, a, v) + "[-"@ + gc(st, dy, v, a) + "+"@ + gc(st, dy, a, v) + "]"@ + gc(st, dy, v, a) + "[-"@ + gc(st, dy, a, v) + "+"@ + gc(st, dy, v, t) + "+"@ + gc(st, dy, t, a) + "]"@ + gc(st, dy, a, a) + "+["@ + gc(st, dy, a, t - b) + "[-]"@, gc(st, dy, t - b, t));
    lemma_concat(gc(st, dy, p, a) + "["@ + gc(st, dy, a, a + b) + "[-]"@ + gc(st, dy, a + b, a) + "-"@ + "[-"@ + gc(st, dy, a, a + b) + "+"@ + gc(st, dy, a + b, a) + "]+"@ + gc(st, dy, a, a + b) + "]"@ + gc(st, dy, a, v) + "[-"@ + gc(st, dy, v, a) + "+"@ + gc(st, dy, a, v) + "]"@ + gc(st, dy, v, a) + "[-"@ + gc(st, dy, a, v) + "+"@ + gc(st, dy, v, t) + "+"@ + gc(st, dy, t, a) + "]"@ + gc(st, dy, a, a) + "+["@ + gc(st, dy, a, t - b) + "[-]"@ + gc(st, dy, t - b, t), "[-"@);
    lemma_concat(gc(st, dy, p, a) + "["@ + gc(st, dy, a, a + b) + "[-]"@ + gc(st, dy, a + b, a) + "-"@ + "[-"@ + gc(st, dy, a, a + b) + "+"@ + gc(st, dy, a + b, a) + "]+"@ + gc(st, dy, a, a + b) + "]"@ + gc(st, dy, a, v) + "[-"@ + gc(st, dy, v, a) + "+"@ + gc(st, dy, a, v) + "]"@ + gc(st, dy, v, a) + "[-"@ + gc(st, dy, a, v) + "+"@ + gc(st, dy, v, t) + "+"@ + gc(st, dy, t, a) + "]"@ + gc(st, dy, a, a) + "+["@ + gc(st, dy, a, t - b) + "[-]"@ + gc(st, dy, t - b, t) + "[-"@, gc(st, dy, t, t - b));
    lemma_concat(gc(st, dy, p, a) + "["@ + gc(st, dy, a, a + b) + "[-]"@ + gc(st, dy, a + b, a) + "-"@ + "[-"@ + gc(st, dy, a, a + b) + "+"@ + gc(st, dy, a + b, a) + "]+"@ + gc(st, dy, a, a + b) + "]"@ + gc(st, dy, a, v) + "[-"@ + gc(st, dy, v, a) + "+"@ + gc(st, dy, a, v) + "]"@ + gc(st, dy, v, a) + "[-"@ + gc(st, dy, a, v) + "+"@ + gc(st, dy, v, t) + "+"@ + gc(st, dy, t, a) + "]"@ + gc(st, dy, a, a) + "+["@ + gc(st, dy, a, t - b) + "[-]"@ + gc(st, dy, t - b, t) + "[-"@ + gc(st, dy, t, t - b), "+"@);
    lemma_concat(gc(st, dy, p, a) + "["@ + gc(st, dy, a, a + b) + "[-]"@ + gc(st, dy, a + b, a) + "-"@ + "[-"@ + gc(st, dy, a, a + b) + "+"@ + gc(st, dy, a + b, a) + "]+"@ + gc(st, dy, a, a + b) + "]"@ + gc(st, dy, a, v) + "[-"@ + gc(st, dy, v, a) + "+"@ + gc(st, dy, a, v) + "]"@ + gc(st, dy, v, a) + "[-"@ + gc(st, dy, a, v) + "+"@ + gc(st, dy, v, t) + "+"@ + gc(st, dy, t, a) + "]"@ + gc(st, dy, a, a) + "+["@ + gc(st, dy, a, t - b) + "[-]"@ + gc(st, dy, t - b, t) + "[-"@ + gc(st, dy, t, t - b) + "+"@, gc(st, dy, t - b, t));
    lemma_concat(gc(st, dy, p, a) + "["@ + gc(st, dy, a, a + b) + "[-]"@ + gc(st, dy, a + b, a) + "-"@ + "[-"@ + gc(st, dy, a, a + b) + "+"@ + gc(st, dy, a + b, a) + "]+"@ + gc(st, dy, a, a + b) + "]"@ + gc(st, dy, a, v) + "[-"@ + gc(st, dy, v, a) + "+"@ + gc(st, dy, a, v) + "]"@ + gc(st, dy, v, a) + "[-"@ + gc(st, dy, a, v) + "+"@ + gc(st, dy, v, t) + "+"@ + gc(st, dy, t, a) + "]"@ + gc(st, dy, a, a) + "+["@ + gc(st, dy, a, t - b) + "[-]"@ + gc(st, dy, t - b, t) + "[-"@ + gc(st, dy, t, t - b) + "+"@ + gc(st, dy, t - b, t), "]"@);
    lemma_concat(gc(st, dy, p, a) + "["@ + gc(st, dy, a, a + b) + "[-]"@ + gc(st, dy, a + b, a) + "-"@ + "[-"@ + gc(st, dy, a, a + b) + "+"@ + gc(st, dy, a + b, a) + "]+"@ + gc(st, dy, a, a + b) + "]"@ + gc(st, dy, a, v) + "[-"@ + gc(st, dy, v, a) + "+"@ + gc(st, dy, a, v) + "]"@ + gc(st, dy, v, a) + "[-"@ + gc(st, dy, a, v) + "+"@ + gc(st, dy, v, t) + "+"@ + gc(st, dy, t, a) + "]"@ + gc(st, dy, a, a) + "+["@ + gc(st, dy, a, t - b) + "[-]"@ + gc(st, dy, t - b, t) + "[-"@ + gc(st, dy, t, t - b) + "+"@ + gc(st, dy, t - b, t) + "]"@, gc(st, dy, t, a - b));
    lemma_concat(gc(st, dy, p, a) + "["@ + gc(st, dy, a, a + b) + "[-]"@ + gc(st, dy, a + b, a) + "-"@ + "[-"@ + gc(st, dy, a, a + b) + "+"@ + gc(st, dy, a + b, a) + "]+"@ + gc(st, dy, a, a + b) + "]"@ + gc(st, dy, a, v) + "[-"@ + gc(st, dy, v, a) + "+"@ + gc(st, dy, a, v) + "]"@ + gc(st, dy, v, a) + "[-"@ + gc(st, dy, a, v) + "+"@ + gc(st, dy, v, t) + "+"@ + gc(st, dy, t, a) + "]"@ + gc(st, dy, a, a) + "+["@ + gc(st, dy, a, t - b) + "[-]"@ + gc(st, dy, t - b, t) + "[-"@ + gc(st, dy, t, t - b) + "+"@ + gc(st, dy, t - b, t) + "]"@ + gc(st, dy, t, a - b), "]"@);
}

/// The text of `Send` is a flat run of commands with balanced loops.
proof fn lemma_send_code(st: usize, dy: usize, p: int, index: int)
    ensures
        emitted_at(send_code(st, dy, p, index), 0),
{
    let b = dy + 2;
    let a = st + b;
    let t = a + 1;
    let v = a - 1 - index;

    lemma_go_flat(st, dy, p, a);
    lemma_literal_open();
    lemma_go_flat(st, dy, a, a + b);
    lemma_literal_clear();
    lemma_go_flat(st, dy, a + b, t + b);
    lemma_literal_clear();
    lemma_go_flat(st, dy, t + b, t);
    lemma_literal_open_dec();
    lemma_go_flat(st, dy, t, t + b);
    lemma_literal_inc();
    lemma_go_flat(st, dy, t + b, t);
    lemma_literal_close();
    lemma_go_flat(st, dy, t, a);
    lemma_literal_dec();
    lemma_literal_open_dec();
    lemma_go_flat(st, dy, a, a + b);
    lemma_literal_inc();
    lemma_go_flat(st, dy, a + b, a);
    lemma_literal_close_inc();
    lemma_go_flat(st, dy, a, a + b);
    lemma_literal_close();
    lemma_go_flat(st, dy, a, v);
    lemma_literal_clear();
    lemma_go_flat(st, dy, v, t);
    lemma_literal_open_dec();
    lemma_go_flat(st, dy, t, v);
    lemma_literal_inc();
    lemma_go_flat(st, dy, v, t);
    lemma_literal_close();
    lemma_go_flat(st, dy, t, a);
    lemma_literal_inc_open();
    lemma_go_flat(st, dy, a, a - b);
    lemma_literal_close();
    lemma_concat(gc(st, dy, p, a), "["@);
    lemma_concat(gc(st, dy, p, a) + "["@, gc(st, dy, a, a + b));
    lemma_concat(gc(st, dy, p, a) + "["@ + gc(st, dy, a, a + b), "[-]"@);
    lemma_concat(gc(st, dy, p, a) + "["@ + gc(st, dy, a, a + b) + "[-]"@, gc(st, dy, a + b, t + b));
    lemma_concat(gc(st, dy, p, a) + "["@ + gc(st, dy, a, a + b) + "[-]"@ + gc(st, dy, a + b, t + b), "[-]"@);
    lemma_concat(gc(st, dy, p, a) + "["@ + gc(st, dy, a, a + b) + "[-]"@ + gc(st, dy, a + b, t + b) + "[-]"@, gc(st, dy, t + b, t));
    lemma_concat(gc(st, dy, p, a) + "["@ + gc(st, dy, a, a + b) + "[-]"@ + gc(st, dy, a + b, t + b) + "[-]"@ + gc(st, dy, t + b, t), "[-"@);
    lemma_concat(gc(st, dy, p, a) + "["@ + gc(st, dy, a, a + b) + "[-]"@ + gc(st, dy, a + b, t + b) + "[-]"@ + gc(st, dy, t + b, t) + "[-"@, gc(st, dy, t, t + b));
    lemma_concat(gc(st, dy, p, a) + "["@ + gc(st, dy, a, a + b) + "[-]"@ + gc(st, dy, a + b, t + b) + "[-]"@ + gc(st, dy, t + b, t) + "[-"@ + gc(st, dy, t, t + b), "+"@);
    lemma_concat(gc(st, dy, p, a) + "["@ + gc(st, dy, a, a + b) + "[-]"@ + gc(st, dy, a + b, t + b) + "[-]"@ + gc(st, dy, t + b, t) + "[-"@ + gc(st, dy, t, t + b) + "+"@, gc(st, dy, t + b, t));
    lemma_concat(gc(st, dy, p, a) + "["@ + gc(st, dy, a, a + b) + "[-]"@ + gc(st, dy, a + b, t + b) + "[-]"@ + gc(st, dy, t + b, t) + "[-"@ + gc(st, dy, t, t + b) + "+"@ + gc(st, dy, t + b, t), "]"@);
    lemma_concat(gc(st, dy, p, a) + "["@ + gc(st, dy, a, a + b) + "[-]"@ + gc(st, dy, a + b, t + b) + "[-]"@ + gc(st, dy, t + b, t) + "[-"@ + gc(st, dy, t, t + b) + "+"@ + gc(st, dy, t + b, t) + "]"@, gc(st, dy, t, a));
    lemma_concat(gc(st, dy, p, a) + "["@ + gc(st, dy, a, a + b) + "[-]"@ + gc(st, dy, a + b, t + b) + "[-]"@ + gc(st, dy, t + b, t) + "[-"@ + gc(st, dy, t, t + b) + "+"@ + gc(st, dy, t + b, t) + "]"@ + gc(st, dy, t, a), "-"@);
    lemma_concat(gc(st, dy, p, a) + "["@ + gc(st, dy, a, a + b) + "[-]"@ + gc(st, dy, a + b, t + b) + "[-]"@ + gc(st, dy, t + b, t) + "[-"@ + gc(st, dy, t, t + b) + "+"@ + gc(st, dy, t + b, t) + "]"@ + gc(st, dy, t, a) + "-"@, "[-"@);
    lemma_concat(gc(st, dy, p, a) + "["@ + gc(st, dy, a, a + b) + "[-]"@ + gc(st, dy, a + b, t + b) + "[-]"@ + gc(st, dy, t + b, t) + "[-"@ + gc(st, dy, t, t + b) + "+"@ + gc(st, dy, t + b, t) + "]"@ + gc(st, dy, t, a) + "-"@ + "[-"@, gc(st, dy, a, a + b));
    lemma_concat(gc(st, dy, p, a) + "["@ + gc(st, dy, a, a + b) + "[-]"@ + gc(st, dy, a + b, t + b) + "[-]"@ + gc(st, dy, t + b, t) + "[-"@ + gc(st, dy, t, t + b) + "+"@ + gc(st, dy, t + b, t) + "]"@ + gc(st, dy, t, a) + "-"@ + "[-"@ + gc(st, dy, a, a + b), "+"@);
    lemma_concat(gc(st, dy, p, a) + "["@ + gc(st, dy, a, a + b) + "[-]"@ + gc(st, dy, a + b, t + b) + "[-]"@ + gc(st, dy, t + b, t) + "[-"@ + gc(st, dy, t, t + b) + "+"@ + gc(st, dy, t + b, t) + "]"@ + gc(st, dy, t, a) + "-"@ + "[-"@ + gc(st, dy, a, a + b) + "+"@, gc(st, dy, a + b, a));
    lemma_concat(gc(st, dy, p, a) + "["@ + gc(st, dy, a, a + b) + "[-]"@ + gc(st, dy, a + b, t + b) + "[-]"@ + gc(st, dy, t + b, t) + "[-"@ + gc(st, dy, t, t + b) + "+"@ + gc(st, dy, t + b, t) + "]"@ + gc(st, dy, t, a) + "-"@ + "[-"@ + gc(st, dy, a, a + b) + "+"@ + gc(st, dy, a + b, a), "]+"@);
    lemma_concat(gc(st, dy, p, a) + "["@ + gc(st, dy, a, a + b) + "[-]"@ + gc(st, dy, a + b, t + b) + "[-]"@ + gc(st, dy, t + b, t) + "[-"@ + gc(st, dy, t, t + b) + "+"@ + gc(st, dy, t + b, t) + "]"@ + gc(st, dy, t, a) + "-"@ + "[-"@ + gc(st, dy, a, a + b) + "+"@ + gc(st, dy, a + b, a) + "]+"@, gc(st, dy, a, a + b));
    lemma_concat(gc(st, dy, p, a) + "["@ + gc(st, dy, a, a + b) + "[-]"@ + gc(st, dy, a + b, t + b) + "[-]"@ + gc(st, dy, t + b, t) + "[-"@ + gc(st, dy, t, t + b) + "+"@ + gc(st, dy, t + b, t) + "]"@ + gc(st, dy, t, a) + "-"@ + "[-"@ + gc(st, dy, a, a + b) + "+"@ + gc(st, dy, a + b, a) + "]+"@ + gc(st, dy, a, a + b), "]"@);
    lemma_concat(gc(st, dy, p, a) + "["@ + gc(st, dy, a, a + b) + "[-]"@ + gc(st, dy, a + b, t + b) + "[-]"@ + gc(st, dy, t + b, t) + "[-"@ + gc(st, dy, t, t + b) + "+"@ + gc(st, dy, t + b, t) + "]"@ + gc(st, dy, t, a) + "-"@ + "[-"@ + gc(st, dy, a, a + b) + "+"@ + gc(st, dy, a + b, a) + "]+"@ + gc(st, dy, a, a + b) + "]"@, gc(st, dy, a, v));
    lemma_concat(gc(st, dy, p, a) + "["@ + gc(st, dy, a, a + b) + "[-]"@ + gc(st, dy, a + b, t + b) + "[-]"@ + gc(st, dy, t + b, t) + "[-"@ + gc(st, dy, t, t + b) + "+"@ + gc(st, dy, t + b, t) + "]"@ + gc(st, dy, t, a) + "-"@ + "[-"@ + gc(st, dy, a, a + b) + "+"@ + gc(st, dy, a + b, a) + "]+"@ + gc(st, dy, a, a + b) + "]"@ + gc(st, dy, a, v), "[-]"@);
    lemma_concat(gc(st, dy, p, a) + "["@ + gc(st, dy, a, a + b) + "[-]"@ + gc(st, dy, a + b, t + b) + "[-]"@ + gc(st, dy, t + b, t) + "[-"@ + gc(st, dy, t, t + b) + "+"@ + gc(st, dy, t + b, t) + "]"@ + gc(st, dy, t, a) + "-"@ + "[-"@ + gc(st, dy, a, a + b) + "+"@ + gc(st, dy, a + b, a) + "]+"@ + gc(st, dy, a, a + b) + "]"@ + gc(st, dy, a, v) + "[-]"@, gc(st, dy, v, t));
    lemma_concat(gc(st, dy, p, a) + "["@ + gc(st, dy, a, a + b) + "[-]"@ + gc(st, dy, a + b, t + b) + "[-]"@ + gc(st, dy, t + b, t) + "[-"@ + gc(st, dy, t, t + b) + "+"@ + gc(st, dy, t + b, t) + "]"@ + gc(st, dy, t, a) + "-"@ + "[-"@ + gc(st, dy, a, a + b) + "+"@ + gc(st, dy, a + b, a) + "]+"@ + gc(st, dy, a, a + b) + "]"@ + gc(st, dy, a, v) + "[-]"@ + gc(st, dy, v, t), "[-"@);
    lemma_concat(gc(st, dy, p, a) + "["@ + gc(st, dy, a, a + b) + "[-]"@ + gc(st, dy, a + b, t + b) + "[-]"@ + gc(st, dy, t + b, t) + "[-"@ + gc(st, dy, t, t + b) + "+"@ + gc(st, dy, t + b, t) + "]"@ + gc(st, dy, t, a) + "-"@ + "[-"@ + gc(st, dy, a, a + b) + "+"@ + gc(st, dy, a + b, a) + "]+"@ + gc(st, dy, a, a + b) + "]"@ + gc(st, dy, a, v) + "[-]"@ + gc(st, dy, v, t) + "[-"@, gc(st, dy, t, v));
    lemma_concat(gc(st, dy, p, a) + "["@ + gc(st, dy, a, a + b) + "[-]"@ + gc(st, dy, a + b, t + b) + "[-]"@ + gc(st, dy, t + b, t) + "[-"@ + gc(st, dy, t, t + b) + "+"@ + gc(st, dy, t + b, t) + "]"@ + gc(st, dy, t, a) + "-"@ + "[-"@ + gc(st, dy, a, a + b) + "+"@ + gc(st, dy, a + b, a) + "]+"@ + gc(st, dy, a, a + b) + "]"@ + gc(st, dy, a, v) + "[-]"@ + gc(st, dy, v, t) + "[-"@ + gc(st, dy, t, v), "+"@);
    lemma_concat(gc(st, dy, p, a) + "["@ + gc(st, dy, a, a + b) + "[-]"@ + gc(st, dy, a + b, t + b) + "[-]"@ + gc(st, dy, t + b, t) + "[-"@ + gc(st, dy, t, t + b) + "+"@ + gc(st, dy, t + b, t) + "]"@ + gc(st, dy, t, a) + "-"@ + "[-"@ + gc(st, dy, a, a + b) + "+"@ + gc(st, dy, a + b, a) + "]+"@ + gc(st, dy, a, a + b) + "]"@ + gc(st, dy, a, v) + "[-]"@ + gc(st, dy, v, t) + "[-"@ + gc(st, dy, t, v) + "+"@, gc(st, dy, v, t));
    lemma_concat(gc(st, dy, p, a) + "["@ + gc(st, dy, a, a + b) + "[-]"@ + gc(st, dy, a + b, t + b) + "[-]"@ + gc(st, dy, t + b, t) + "[-"@ + gc(st, dy, t, t + b) + "+"@ + gc(st, dy, t + b, t) + "]"@ + gc(st, dy, t, a) + "-"@ + "[-"@ + gc(st, dy, a, a + b) + "+"@ + gc(st, dy, a + b, a) + "]+"@ + gc(st, dy, a, a + b) + "]"@ + gc(st, dy, a, v) + "[-]"@ + gc(st, dy, v, t) + "[-"@ + gc(st, dy, t, v) + "+"@ + gc(st, dy, v, t), "]"@);
    lemma_concat(gc(st, dy, p, a) + "["@ + gc(st, dy, a, a + b) + "[-]"@ + gc(st, dy, a + b, t + b) + "[-]"@ + gc(st, dy, t + b, t) + "[-"@ + gc(st, dy, t, t + b) + "+"@ + gc(st, dy, t + b, t) + "]"@ + gc(st, dy, t, a) + "-"@ + "[-"@ + gc(st, dy, a, a + b) + "+"@ + gc(st, dy, a + b, a) + "]+"@ + gc(st, dy, a, a + b) + "]"@ + gc(st, dy, a, v) + "[-]"@ + gc(st, dy, v, t) + "[-"@ + gc(st, dy, t, v) + "+"@ + gc(st, dy, v, t) + "]"@, gc(st, dy, t, a));
    lemma_concat(gc(st, dy, p, a) + "["@ + gc(st, dy, a, a + b) + "[-]"@ + gc(st, dy, a + b, t + b) + "[-]"@ + gc(st, dy, t + b, t) + "[-"@ + gc(st, dy, t, t + b) + "+"@ + gc(st, dy, t + b, t) + "]"@ + gc(st, dy, t, a) + "-"@ + "[-"@ + gc(st, dy, a, a + b) + "+"@ + gc(st, dy, a + b, a) + "]+"@ + gc(st, dy, a, a + b) + "]"@ + gc(st, dy, a, v) + "[-]"@ + gc(st, dy, v, t) + "[-"@ + gc(st, dy, t, v) + "+"@ + gc(st, dy, v, t) + "]"@ + gc(st, dy, t, a), "+["@);
    lemma_concat(gc(st, dy, p, a) + "["@ + gc(st, dy, a, a + b) + "[-]"@ + gc(st, dy, a + b, t + b) + "[-]"@ + gc(st, dy, t + b, t) + "[-"@ + gc(st, dy, t, t + b) + "+"@ + gc(st, dy, t + b, t) + "]"@ + gc(st, dy, t, a) + "-"@ + "[-"@ + gc(st, dy, a, a + b) + "+"@ + gc(st, dy, a + b, a) + "]+"@ + gc(st, dy, a, a + b) + "]"@ + gc(st, dy, a, v) + "[-]"@ + gc(st, dy, v, t) + "[-"@ + gc(st, dy, t, v) + "+"@ + gc(st, dy, v, t) + "]"@ + gc(st, dy, t, a) + "+["@, gc(st, dy, a, a - b));
    lemma_concat(gc(st, dy, p, a) + "["@ + gc(st, dy, a, a + b) + "[-]"@ + gc(st, dy, a + b, t + b) + "[-]"@ + gc(st, dy, t + b, t) + "[-"@ + gc(st, dy, t, t + b) + "+"@ + gc(st, dy, t + b, t) + "]"@ + gc(st, dy, t, a) + "-"@ + "[-"@ + gc(st, dy, a, a + b) + "+"@ + gc(st, dy, a + b, a) + "]+"@ + gc(st, dy, a, a + b) + "]"@ + gc(st, dy, a, v) + "[-]"@ + gc(st, dy, v, t) + "[-"@ + gc(st, dy, t, v) + "+"@ + gc(st, dy, v, t) + "]"@ + gc(st, dy, t, a) + "+["@ + gc(st, dy, a, a - b), "]"@);
}


/// Appending a text that never dips below `-d` to text emitted at depth `d`.
proof fn lemma_extend(c: Seq<char>, d: int, t: Seq<char>)
    requires
        emitted_at(c, d),
        all_commands(t),
        d + low(t) >= 0,
    ensures
        emitted_at(c + t, d + depth(t)),
{
    lemma_concat(c, t);
}

/// A move of the head followed by `text` keeps the emitted text well nested.
proof fn lemma_go_push(st: usize, dy: usize, s: AsmState, d: int, at: usize, text: Seq<char>)
    requires
        d >= 0,
        s matches Some((_, c)) ==> emitted_at(c, d),
        all_commands(text),
        d + low(text) >= 0,
    ensures
        go_push(st, dy, s, at, text) matches Some((_, c2)) ==> emitted_at(c2, d + depth(text)),
{
    if let Some((p, c)) = s {
        lemma_go_flat(st, dy, p as int, at as int);
        lemma_extend(c, d, go_code(st, dy, p, at));
        lemma_extend(c + go_code(st, dy, p, at), d, text);
    }
}

/// From any state whose text is well nested at depth `d`, one operation
/// appends only brainfuck commands, closes no loop it did not open and
/// leaves the nesting depth at `d`.
pub proof fn lemma_op_emits(st: usize, dy: usize, s: AsmState, d: int, op: AssemblyOp)
    requires
        d >= 0,
        s matches Some((_, c)) ==> emitted_at(c, d),
    ensures
        op_spec(st, dy, s, op) matches Some((_, c2)) ==> emitted_at(c2, d),
    decreases op,
{
    lemma_flat(Seq::<char>::empty());
    match op {
        AssemblyOp::Move(source, dests) => {
            lemma_literal_open_dec();
            lemma_literal_close();
            lemma_go_push(st, dy, s, d, source, "[-"@);
            let s1 = go_push(st, dy, s, source, "[-"@);
            lemma_moves_emits(st, dy, s1, d + 1, dests@);
            lemma_go_push(st, dy, moves_spec(st, dy, s1, dests@), d + 1, source, "]"@);
        },
        AssemblyOp::SetCell(ptr, val) => {
            lemma_literal_clear();
            lemma_go_push(st, dy, s, d, ptr, "[-]"@);
            if let Some((p2, c2)) = go_push(st, dy, s, ptr, "[-]"@) {
                lemma_add_flat(val);
                lemma_extend(c2, d, add_code(val));
            }
        },
        AssemblyOp::Add(ptr, val) => {
            lemma_go_push(st, dy, s, d, ptr, Seq::empty());
            if let Some((p2, c2)) = go_push(st, dy, s, ptr, Seq::empty()) {
                lemma_add_flat(val);
                lemma_extend(c2, d, add_code(val));
            }
        },
        AssemblyOp::Out(ptr) => {
            lemma_literal_out();
            lemma_go_push(st, dy, s, d, ptr, "."@);
        },
        AssemblyOp::In(ptr) => {
            lemma_literal_in();
            lemma_go_push(st, dy, s, d, ptr, ","@);
        },
        AssemblyOp::Loop(cond, body) => {
            lemma_literal_open();
            lemma_literal_close();
            lemma_go_push(st, dy, s, d, cond, "["@);
            let s1 = go_push(st, dy, s, cond, "["@);
            lemma_block_emits(st, dy, s1, d + 1, body@);
            lemma_go_push(st, dy, block_spec(st, dy, s1, body@), d + 1, cond, "]"@);
        },
        AssemblyOp::Fetch(index) => {
            if let Some((p, c)) = s {
                lemma_fetch_code(st, dy, p as int, index as int);
                lemma_extend(c, d, fetch_code(st, dy, p as int, index as int));
            }
        },
        AssemblyOp::Send(index) => {
            if let Some((p, c)) = s {
                lemma_send_code(st, dy, p as int, index as int);
                lemma_extend(c, d, send_code(st, dy, p as int, index as int));
            }
        },
    }
}

proof fn lemma_moves_emits(st: usize, dy: usize, s: AsmState, d: int, dests: Seq<(usize, i8)>)
    requires
        d >= 0,
        s matches Some((_, c)) ==> emitted_at(c, d),
    ensures
        moves_spec(st, dy, s, dests) matches Some((_, c2)) ==> emitted_at(c2, d),
    decreases dests.len(),
{
    lemma_flat(Seq::<char>::empty());
    if dests.len() > 0 {
        let s1 = moves_spec(st, dy, s, dests.drop_last());
        lemma_moves_emits(st, dy, s, d, dests.drop_last());
        lemma_go_push(st, dy, s1, d, dests.last().0, Seq::empty());
        if let Some((p2, c2)) = go_push(st, dy, s1, dests.last().0, Seq::empty()) {
            lemma_add_flat(dests.last().1);
            lemma_extend(c2, d, add_code(dests.last().1));
        }
    }
}

/// From any state whose text is well nested at depth `d`, a block of
/// operations appends only brainfuck commands, closes no loop it did not
/// open and leaves the nesting depth at `d`.
pub proof fn lemma_block_emits(st: usize, dy: usize, s: AsmState, d: int, ops: Seq<AssemblyOp>)
    requires
        d >= 0,
        s matches Some((_, c)) ==> emitted_at(c, d),
    ensures
        block_spec(st, dy, s, ops) matches Some((_, c2)) ==> emitted_at(c2, d),
    decreases ops,
{
    if ops.len() > 0 {
        lemma_block_emits(st, dy, s, d, ops.drop_last());
        lemma_op_emits(st, dy, block_spec(st, dy, s, ops.drop_last()), d, ops.last());
    }
}

/// Whenever a program assembles, its text is a brainfuck program: it holds
/// only the eight commands and every loop it opens it also closes.
pub proof fn lemma_assemble_well_formed(prog: AssemblyProgram)
    requires
        prog.assemble_spec() is Some,
    ensures
        is_bf_program(prog.assemble_spec().unwrap()),
{
    let s0: AsmState = Some((0usize, Seq::<char>::empty()));
    lemma_flat(Seq::<char>::empty());
    lemma_block_emits(prog.static_memory_size, prog.dynamic_memory_block_size, s0, 0, prog.code@);
    lemma_emitted_program(prog.assemble_spec().unwrap());
}

} // verus!
