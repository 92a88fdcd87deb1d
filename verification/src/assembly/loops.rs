use vstd::prelude::*;
use vstd::string::*;

use crate::assembly::block::{block_spec, go_push, moves_spec, op_spec};
use crate::assembly::cells::{addressable, dests_within, lemma_ops_within_push, op_within, ops_within};
use crate::assembly::ctx::{add_code, go_code, go_delta};
use crate::assembly::program::{ops_deep, AssemblyOp, AssemblyProgram, OpView};
use crate::assembly::tracking::{
    lemma_block_tracking, lemma_go_push_shift, lemma_literal_shifts, lemma_moves_shift, lemma_op_tracking,
    lemma_prefix_rest, lemma_shift_concat, shift,
};
use crate::assembly::wellformed::{
    all_commands, bracket_step, depth, emitted_at, lemma_concat, lemma_flat, lemma_low_prefixes, lemma_push,
    lemma_repeat_flat,
};

verus! {

/// The `[` at `i` and the `]` at `j` of `s` enclose one loop: the `]` is the
/// one that closes the loop the `[` opens.
pub open spec fn brackets_match(s: Seq<char>, i: int, j: int) -> bool {
    &&& 0 <= i < j < s.len()
    &&& s[i] == '['
    &&& s[j] == ']'
    &&& depth(s.take(j + 1)) == depth(s.take(i))
    &&& forall|k: int| i < k <= j ==> depth(#[trigger] s.take(k)) > depth(s.take(i))
}

/// Every loop of `s` brings the head back to the cell it tests: between a
/// `[` and the `]` that closes it, the head moves right as often as left.
pub open spec fn loops_return(s: Seq<char>) -> bool {
    forall|i: int, j: int| #[trigger] brackets_match(s, i, j) ==> shift(s.subrange(i + 1, j)) == 0
}

/// `s` is a well nested run of commands each of whose loops returns the
/// head to the cell it tests.
pub open spec fn returning(s: Seq<char>) -> bool {
    &&& emitted_at(s, 0)
    &&& loops_return(s)
}

/// Commands that neither open nor close a loop.
pub open spec fn flat(s: Seq<char>) -> bool {
    &&& all_commands(s)
    &&& forall|i: int| 0 <= i < s.len() ==> bracket_step(#[trigger] s[i]) == 0
}

/// Commands without brackets hold no loop.
pub proof fn lemma_flat_returning(s: Seq<char>)
    requires
        flat(s),
    ensures
        returning(s),
{
    lemma_flat(s);
    assert forall|i: int, j: int| #[trigger] brackets_match(s, i, j) implies shift(s.subrange(i + 1, j)) == 0 by {
        assert(bracket_step(s[i]) == 0);
    }
}

/// Two flat texts together are flat.
pub proof fn lemma_flat_concat(a: Seq<char>, b: Seq<char>)
    requires
        flat(a),
        flat(b),
    ensures
        flat(a + b),
{
    lemma_concat(a, b);
    assert forall|i: int| 0 <= i < (a + b).len() implies bracket_step(#[trigger] (a + b)[i]) == 0 by {
        if i < a.len() {
            assert((a + b)[i] == a[i]);
        } else {
            assert((a + b)[i] == b[i - a.len()]);
        }
    }
}

/// A well nested text never dips below the depth it starts at.
proof fn lemma_prefix_depths(a: Seq<char>)
    requires
        emitted_at(a, 0),
    ensures
        forall|k: int| 0 <= k <= a.len() ==> depth(#[trigger] a.take(k)) >= 0,
{
    lemma_low_prefixes(a);
}

/// The prefixes of `a + b` that reach into `b`.
proof fn lemma_take_concat(a: Seq<char>, b: Seq<char>)
    ensures
        forall|k: int| 0 <= k <= a.len() ==> #[trigger] (a + b).take(k) == a.take(k),
        forall|k: int|
            a.len() <= k <= a.len() + b.len() ==> depth(#[trigger] (a + b).take(k)) == depth(a) + depth(
                b.take(k - a.len()),
            ),
{
    assert forall|k: int| 0 <= k <= a.len() implies #[trigger] (a + b).take(k) == a.take(k) by {
        assert((a + b).take(k) =~= a.take(k));
    }
    assert forall|k: int| a.len() <= k <= a.len() + b.len() implies depth(#[trigger] (a + b).take(k)) == depth(a)
        + depth(b.take(k - a.len())) by {
        assert((a + b).take(k) =~= a + b.take(k - a.len()));
        lemma_concat(a, b.take(k - a.len()));
    }
}

/// Well nested texts whose loops return, written one after the other, are
/// again such a text: no loop can reach from one into the other.
pub proof fn lemma_returning_concat(a: Seq<char>, b: Seq<char>)
    requires
        returning(a),
        returning(b),
    ensures
        returning(a + b),
{
    let s = a + b;
    let n = a.len() as int;
    lemma_concat(a, b);
    lemma_prefix_depths(a);
    lemma_take_concat(a, b);
    assert forall|i: int, j: int| #[trigger] brackets_match(s, i, j) implies shift(s.subrange(i + 1, j)) == 0 by {
        if j < n {
            assert(s.take(i) == a.take(i));
            assert(s.take(j + 1) == a.take(j + 1));
            assert(s[i] == a[i]);
            assert(s[j] == a[j]);
            assert forall|k: int| i < k <= j implies depth(#[trigger] a.take(k)) > depth(a.take(i)) by {
                assert(s.take(k) == a.take(k));
                assert(depth(s.take(k)) > depth(s.take(i)));
            }
            assert(brackets_match(a, i, j));
            assert(s.subrange(i + 1, j) =~= a.subrange(i + 1, j));
        } else if i >= n {
            let i2 = i - n;
            let j2 = j - n;
            assert(depth(s.take(i)) == depth(a) + depth(b.take(i2)));
            assert(depth(s.take(j + 1)) == depth(a) + depth(b.take(j2 + 1)));
            assert(s[i] == b[i2]);
            assert(s[j] == b[j2]);
            assert forall|k: int| i2 < k <= j2 implies depth(#[trigger] b.take(k)) > depth(b.take(i2)) by {
                assert(depth(s.take(k + n)) == depth(a) + depth(b.take(k)));
                assert(depth(s.take(k + n)) > depth(s.take(i)));
            }
            assert(brackets_match(b, i2, j2));
            assert(s.subrange(i + 1, j) =~= b.subrange(i2 + 1, j2));
        } else {
            assert(s.take(n) == a.take(n));
            assert(a.take(n) =~= a);
            assert(depth(s.take(n)) > depth(s.take(i)));
            assert(s.take(i) == a.take(i));
            assert(depth(a.take(i)) >= 0);
        }
    }
}

/// Closing a well nested text whose loops return, and which itself brings
/// the head back, in one more loop gives again such a text.
pub proof fn lemma_returning_wrap(m: Seq<char>)
    requires
        returning(m),
        shift(m) == 0,
    ensures
        returning("["@ + m + "]"@),
{
    reveal_strlit("[");
    reveal_strlit("]");
    let o = seq!['['];
    let c = seq![']'];
    assert("["@ =~= o);
    assert("]"@ =~= c);
    let s = o + m + c;
    let n = m.len() as int;
    lemma_prefix_depths(m);
    // Depth along the wrapped text: one more than along `m`, then back to zero.
    lemma_push(Seq::<char>::empty(), '[');
    assert(Seq::<char>::empty().push('[') =~= o);
    lemma_concat(o, m);
    lemma_concat(o + m, c);
    lemma_push(Seq::<char>::empty(), ']');
    assert(Seq::<char>::empty().push(']') =~= c);
    assert(all_commands(o));
    assert(all_commands(c));
    assert(s.take(0) =~= Seq::<char>::empty());
    assert(s.take(n + 2) =~= s);
    assert forall|k: int| 1 <= k <= n + 1 implies depth(#[trigger] s.take(k)) == 1 + depth(m.take(k - 1)) by {
        assert(s.take(k) =~= o + m.take(k - 1));
        lemma_concat(o, m.take(k - 1));
    }
    assert(m.take(n) =~= m);
    assert forall|i: int, j: int| #[trigger] brackets_match(s, i, j) implies shift(s.subrange(i + 1, j)) == 0 by {
        if i == 0 {
            if j <= n {
                assert(depth(s.take(j + 1)) == 1 + depth(m.take(j)));
                assert(depth(m.take(j)) >= 0);
            }
            assert(j == n + 1);
            assert(s.subrange(1, n + 1) =~= m);
        } else {
            assert(s[n + 1] == ']');
            assert(i <= n);
            assert(depth(s.take(i)) == 1 + depth(m.take(i - 1)));
            assert(depth(m.take(i - 1)) >= 0);
            if j == n + 1 {
                assert(depth(s.take(n + 1)) == 1 + depth(m.take(n)));
                assert(depth(s.take(n + 1)) > depth(s.take(i)));
            }
            assert(j <= n);
            let i2 = i - 1;
            let j2 = j - 1;
            assert(s[i] == m[i2]);
            assert(s[j] == m[j2]);
            assert(depth(s.take(j + 1)) == 1 + depth(m.take(j2 + 1)));
            assert forall|k: int| i2 < k <= j2 implies depth(#[trigger] m.take(k)) > depth(m.take(i2)) by {
                assert(depth(s.take(k + 1)) == 1 + depth(m.take(k)));
                assert(depth(s.take(k + 1)) > depth(s.take(i)));
            }
            assert(brackets_match(m, i2, j2));
            assert(s.subrange(i + 1, j) =~= m.subrange(i2 + 1, j2));
        }
    }
}

/// The head moves of `go` are flat.
pub proof fn lemma_go_code_flat(st: usize, dy: usize, p: usize, at: usize)
    ensures
        flat(go_code(st, dy, p, at)),
{
    reveal_strlit(">");
    reveal_strlit("<");
    let d = go_delta(st, dy, p, at);
    if d >= 0 {
        lemma_repeat_flat(">"@, d as nat);
    } else {
        lemma_repeat_flat("<"@, (-d) as nat);
    }
}

/// The `+`/`-` run of `add` is flat.
pub proof fn lemma_add_code_flat(v: i8)
    ensures
        flat(add_code(v)),
{
    reveal_strlit("+");
    reveal_strlit("-");
    if v >= 0 {
        lemma_repeat_flat("+"@, v as nat);
    } else {
        lemma_repeat_flat("-"@, (-v) as nat);
    }
}

proof fn lemma_literals_flat()
    ensures
        flat("-"@),
        flat("."@),
        flat(","@),
        flat(Seq::<char>::empty()),
{
    reveal_strlit("-");
    reveal_strlit(".");
    reveal_strlit(",");
    assert("-"@ =~= seq!['-']);
    assert("."@ =~= seq!['.']);
    assert(","@ =~= seq![',']);
}

/// The text a move appends after opening its loop is flat, and takes the
/// head from `p` to where the moving ends.
proof fn lemma_moves_flat(st: usize, dy: usize, p: usize, code: Seq<char>, dests: Seq<(usize, i8)>)
    requires
        p <= isize::MAX,
        dests_within(dests, addressable()),
    ensures
        moves_spec(st, dy, Some((p, code)), dests) matches Some((p2, code2)) && code.is_prefix_of(code2) && flat(
            code2.skip(code.len() as int),
        ),
    decreases dests.len(),
{
    lemma_moves_shift(st, dy, p, code, dests);
    if dests.len() > 0 {
        let d = dests.drop_last();
        assert(dests_within(d, addressable())) by {
            assert forall|j: int| 0 <= j < d.len() implies d[j].0 < addressable() by {
                assert(d[j] == dests[j]);
            }
        }
        lemma_moves_flat(st, dy, p, code, d);
        lemma_moves_shift(st, dy, p, code, d);
        let (p1, c1) = moves_spec(st, dy, Some((p, code)), d).unwrap();
        let last = dests.last();
        assert(last.0 < addressable()) by {
            assert(dests[dests.len() - 1].0 < addressable());
        }
        lemma_literal_shifts();
        lemma_go_push_shift(st, dy, p1, c1, last.0, Seq::empty());
        let g = go_code(st, dy, p1, last.0);
        let c2 = c1 + g + Seq::empty() + add_code(last.1);
        lemma_prefix_rest(code, c1);
        let m1 = c1.skip(code.len() as int);
        assert(c2.skip(code.len() as int) =~= m1 + g + add_code(last.1));
        lemma_go_code_flat(st, dy, p1, last.0);
        lemma_add_code_flat(last.1);
        lemma_flat_concat(m1, g);
        lemma_flat_concat(m1 + g, add_code(last.1));
    } else {
        assert(code.skip(code.len() as int) =~= Seq::<char>::empty());
        lemma_literals_flat();
    }
}

/// Going to cell `at` and writing a well nested text whose loops return
/// appends a well nested text whose loops return.
proof fn lemma_straight(st: usize, dy: usize, p: usize, code: Seq<char>, at: usize, text: Seq<char>)
    requires
        returning(text),
    ensures
        returning((code + go_code(st, dy, p, at) + text).skip(code.len() as int)),
{
    let g = go_code(st, dy, p, at);
    lemma_go_code_flat(st, dy, p, at);
    lemma_flat_returning(g);
    lemma_returning_concat(g, text);
    assert((code + g + text).skip(code.len() as int) =~= g + text);
}

/// Closing a loop opened at cell `at`: where the text between the opening
/// bracket and the head's return to `at` brings the head back, the whole
/// text appended since `code` is well nested and its loops return.
proof fn lemma_closing(
    st: usize,
    dy: usize,
    p: usize,
    code: Seq<char>,
    at: usize,
    lead: Seq<char>,
    p2: usize,
    c2: Seq<char>,
)
    requires
        p2 <= isize::MAX,
        at <= isize::MAX,
        (code + go_code(st, dy, p, at) + "["@ + lead).is_prefix_of(c2),
        returning(lead + c2.skip((code + go_code(st, dy, p, at) + "["@ + lead).len() as int)),
        shift(lead) == 0,
        shift(c2.skip((code + go_code(st, dy, p, at) + "["@ + lead).len() as int)) == p2 - at,
    ensures
        go_push(st, dy, Some((p2, c2)), at, "]"@) == Some((at, c2 + go_code(st, dy, p2, at) + "]"@)),
        returning((c2 + go_code(st, dy, p2, at) + "]"@).skip(code.len() as int)),
{
    let g = go_code(st, dy, p, at);
    let c1 = code + g + "["@ + lead;
    let body = c2.skip(c1.len() as int);
    lemma_literal_shifts();
    lemma_go_push_shift(st, dy, p2, c2, at, "]"@);
    let g2 = go_code(st, dy, p2, at);
    lemma_go_code_flat(st, dy, p2, at);
    lemma_flat_returning(g2);
    let inner = lead + body + g2;
    lemma_returning_concat(lead + body, g2);
    lemma_shift_concat(lead, body);
    lemma_shift_concat(lead + body, g2);
    lemma_returning_wrap(inner);
    lemma_prefix_rest(c1, c2);
    let c3 = c2 + g2 + "]"@;
    assert(c3 =~= code + g + ("["@ + inner + "]"@));
    lemma_straight(st, dy, p, code, at, "["@ + inner + "]"@);
}

/// A move empties its source in one loop that returns to the source.
#[verifier::spinoff_prover]
#[verifier::rlimit(30)]
proof fn lemma_move_loops(
    st: usize,
    dy: usize,
    p: usize,
    code: Seq<char>,
    source: usize,
    dests: Vec<(usize, i8)>,
)
    requires
        p <= isize::MAX,
        op_within(OpView::Move(source, dests@), addressable()),
    ensures
        op_spec(st, dy, Some((p, code)), AssemblyOp::Move(source, dests)) matches Some((p2, code2)) && returning(
            code2.skip(code.len() as int),
        ),
{
    reveal_strlit("[");
    reveal_strlit("-");
    reveal_strlit("[-");
    lemma_literal_shifts();
    lemma_literals_flat();
    let g = go_code(st, dy, p, source);
    lemma_go_push_shift(st, dy, p, code, source, "[-"@);
    let c1 = code + g + "[-"@;
    assert(c1 =~= code + g + "["@ + "-"@);
    lemma_moves_flat(st, dy, source, c1, dests@);
    lemma_moves_shift(st, dy, source, c1, dests@);
    let (p2, c2) = moves_spec(st, dy, Some((source, c1)), dests@).unwrap();
    let m = c2.skip(c1.len() as int);
    lemma_prefix_rest(c1, c2);
    lemma_shift_concat(c1, m);
    lemma_flat_concat("-"@, m);
    lemma_flat_returning("-"@ + m);
    lemma_closing(st, dy, p, code, source, "-"@, p2, c2);
}

/// Setting a cell clears it in a loop that does not move the head.
proof fn lemma_set_loops(st: usize, dy: usize, p: usize, code: Seq<char>, ptr: usize, val: i8)
    requires
        p <= isize::MAX,
        ptr < addressable(),
    ensures
        op_spec(st, dy, Some((p, code)), AssemblyOp::SetCell(ptr, val)) matches Some((p2, code2)) && returning(
            code2.skip(code.len() as int),
        ),
{
    reveal_strlit("[");
    reveal_strlit("]");
    reveal_strlit("-");
    reveal_strlit("[-]");
    lemma_literal_shifts();
    lemma_literals_flat();
    let g = go_code(st, dy, p, ptr);
    lemma_go_push_shift(st, dy, p, code, ptr, "[-]"@);
    lemma_flat_returning("-"@);
    lemma_returning_wrap("-"@);
    assert("[-]"@ =~= "["@ + "-"@ + "]"@);
    lemma_add_code_flat(val);
    lemma_flat_returning(add_code(val));
    lemma_returning_concat("[-]"@, add_code(val));
    lemma_straight(st, dy, p, code, ptr, "[-]"@ + add_code(val));
    assert(code + g + "[-]"@ + add_code(val) =~= code + g + ("[-]"@ + add_code(val)));
}

/// An addition holds no loop.
proof fn lemma_add_loops(st: usize, dy: usize, p: usize, code: Seq<char>, ptr: usize, val: i8)
    requires
        p <= isize::MAX,
        ptr < addressable(),
    ensures
        op_spec(st, dy, Some((p, code)), AssemblyOp::Add(ptr, val)) matches Some((p2, code2)) && returning(
            code2.skip(code.len() as int),
        ),
{
    lemma_literal_shifts();
    let g = go_code(st, dy, p, ptr);
    lemma_go_push_shift(st, dy, p, code, ptr, Seq::empty());
    lemma_add_code_flat(val);
    lemma_flat_returning(add_code(val));
    lemma_straight(st, dy, p, code, ptr, add_code(val));
    assert(code + g + Seq::empty() + add_code(val) =~= code + g + add_code(val));
}

/// Where one operation on static cells only, each at most `isize::MAX`,
/// is assembled, the text it appends is well nested and each of its loops
/// returns the head to the cell it tests.
proof fn lemma_op_loops(st: usize, dy: usize, p: usize, code: Seq<char>, op: AssemblyOp)
    requires
        p <= isize::MAX,
        op_within(op.deep(), addressable()),
    ensures
        op_spec(st, dy, Some((p, code)), op) matches Some((p2, code2)) && returning(code2.skip(code.len() as int)),
    decreases op,
{
    lemma_literal_shifts();
    lemma_literals_flat();
    match op {
        AssemblyOp::Move(source, dests) => {
            assert(op.deep() == OpView::Move(source, dests@));
            lemma_move_loops(st, dy, p, code, source, dests);
        },
        AssemblyOp::SetCell(ptr, val) => {
            lemma_set_loops(st, dy, p, code, ptr, val);
        },
        AssemblyOp::Add(ptr, val) => {
            lemma_add_loops(st, dy, p, code, ptr, val);
        },
        AssemblyOp::Out(ptr) => {
            lemma_go_push_shift(st, dy, p, code, ptr, "."@);
            lemma_flat_returning("."@);
            lemma_straight(st, dy, p, code, ptr, "."@);
        },
        AssemblyOp::In(ptr) => {
            lemma_go_push_shift(st, dy, p, code, ptr, ","@);
            lemma_flat_returning(","@);
            lemma_straight(st, dy, p, code, ptr, ","@);
        },
        AssemblyOp::Loop(cond, body) => {
            let g = go_code(st, dy, p, cond);
            lemma_go_push_shift(st, dy, p, code, cond, "["@);
            let c1 = code + g + "["@;
            assert(c1 =~= code + g + "["@ + Seq::<char>::empty());
            lemma_block_loops(st, dy, cond, c1, body@);
            lemma_block_tracking(st, dy, cond, c1, body@);
            let (p2, c2) = block_spec(st, dy, Some((cond, c1)), body@).unwrap();
            assert(Seq::<char>::empty() + c2.skip(c1.len() as int) =~= c2.skip(c1.len() as int));
            lemma_closing(st, dy, p, code, cond, Seq::empty(), p2, c2);
        },
        AssemblyOp::Fetch(_) | AssemblyOp::Send(_) => {},
    }
}

/// Assembling a block of operations on static cells only, each at most
/// `isize::MAX`, from head position `p` succeeds, and the text it appends
/// to `code` moves the head by exactly the change of the recorded head
/// position, is well nested, and brings the head back, in each of its
/// loops, to the cell that loop tests before the loop's closing bracket.
pub proof fn lemma_block_loops(st: usize, dy: usize, p: usize, code: Seq<char>, ops: Seq<AssemblyOp>)
    requires
        p <= isize::MAX,
        ops_within(ops_deep(ops), addressable()),
    ensures
        block_spec(st, dy, Some((p, code)), ops) matches Some((p2, code2)) && code.is_prefix_of(code2) && shift(
            code2.skip(code.len() as int),
        ) == p2 - p && returning(code2.skip(code.len() as int)),
    decreases ops,
{
    lemma_block_tracking(st, dy, p, code, ops);
    let (p2, code2) = block_spec(st, dy, Some((p, code)), ops).unwrap();
    lemma_prefix_rest(code, code2);
    lemma_shift_concat(code, code2.skip(code.len() as int));
    if ops.len() > 0 {
        lemma_ops_within_push(ops_deep(ops.drop_last()), ops.last().deep(), addressable());
        lemma_block_loops(st, dy, p, code, ops.drop_last());
        lemma_block_tracking(st, dy, p, code, ops.drop_last());
        let (p1, c1) = block_spec(st, dy, Some((p, code)), ops.drop_last()).unwrap();
        lemma_op_loops(st, dy, p1, c1, ops.last());
        lemma_op_tracking(st, dy, p1, c1, ops.last());
        lemma_prefix_rest(code, c1);
        lemma_prefix_rest(c1, code2);
        assert(code2.skip(code.len() as int) =~= c1.skip(code.len() as int) + code2.skip(c1.len() as int));
        lemma_returning_concat(c1.skip(code.len() as int), code2.skip(c1.len() as int));
    } else {
        assert(code.skip(code.len() as int) =~= Seq::<char>::empty());
        lemma_literals_flat();
        lemma_flat_returning(Seq::<char>::empty());
    }
}

/// The assembler keeps track of the head faithfully for code on static
/// cells only, each at most `isize::MAX`: the head moves of the assembled
/// text, read straight through, bring the head from cell 0 to exactly the
/// cell where assembling leaves it recorded, and every loop of the text
/// brings the head back to the cell it tests before its closing bracket.
pub proof fn lemma_head_tracking(prog: AssemblyProgram)
    requires
        ops_within(ops_deep(prog.code@), addressable()),
    ensures
        block_spec(
            prog.static_memory_size,
            prog.dynamic_memory_block_size,
            Some((0usize, Seq::<char>::empty())),
            prog.code@,
        ) matches Some((p, text)) && shift(text) == p && loops_return(text),
{
    lemma_block_loops(prog.static_memory_size, prog.dynamic_memory_block_size, 0, Seq::empty(), prog.code@);
    let text = block_spec(
        prog.static_memory_size,
        prog.dynamic_memory_block_size,
        Some((0usize, Seq::<char>::empty())),
        prog.code@,
    ).unwrap().1;
    assert(text.skip(0) =~= text);
}

} // verus!
