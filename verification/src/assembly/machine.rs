use vstd::arithmetic::div_mod::lemma_add_mod_noop_right;
use vstd::prelude::*;
use vstd::string::*;

use crate::assembly::block::{block_spec, moves_spec, op_spec};
use crate::assembly::cells::{addressable, dests_within, lemma_go_static, lemma_ops_within_push, op_within, ops_within};
use crate::assembly::ctx::{add_code, go_code, go_delta};
use crate::assembly::loops::{
    brackets_match, flat, lemma_add_code_flat, lemma_block_loops, lemma_flat_concat, lemma_flat_returning,
    lemma_go_code_flat,
};
use crate::assembly::program::{ops_deep, AssemblyOp, AssemblyProgram, OpView};
use crate::assembly::semantics::{moves_effect, op_effect, run, tape_ok, with_cell};
use crate::assembly::tracking::{
    lemma_block_tracking, lemma_go_push_shift, lemma_literal_shifts, lemma_moves_shift, lemma_op_tracking,
    lemma_prefix_rest,
};
use crate::assembly::utils::repeat_seq;
use crate::assembly::wellformed::{
    bracket_step, depth, emitted_at, is_bf_command, lemma_concat, lemma_low_prefixes, lemma_push, lemma_repeat_flat,
    low,
};

verus! {

/// A brainfuck machine: the tape, cell values from 0 to 255, and the head.
pub type Machine = (spec_fn(int) -> int, int);

/// What a command other than a bracket does; reading input is not
/// described here.
pub open spec fn command_effect(c: char, m: Machine) -> Option<Machine> {
    let (t, h) = m;
    if c == '>' {
        Some((t, h + 1))
    } else if c == '<' {
        Some((t, h - 1))
    } else if c == '+' {
        Some((with_cell(t, h, (t(h) + 1) % 256), h))
    } else if c == '-' {
        Some((with_cell(t, h, (t(h) + 255) % 256), h))
    } else if c == '.' {
        Some(m)
    } else {
        None
    }
}

/// The index of the `]` that closes the loop `s` starts with.
pub open spec fn loop_end(s: Seq<char>) -> int {
    choose|j: int| brackets_match(s, 0, j)
}

/// Runs the text `s` on `m`, each loop for at most `fuel` rounds; `None`
/// where a loop would run longer, a bracket is unmatched or input is read.
pub open spec fn exec(s: Seq<char>, m: Machine, fuel: nat) -> Option<Machine>
    decreases fuel, s.len(),
{
    if s.len() == 0 {
        Some(m)
    } else if s[0] == '[' {
        if exists|j: int| brackets_match(s, 0, j) {
            let j = loop_end(s);
            match repeat_loop(s.subrange(1, j), m, fuel) {
                Some(m2) => exec(s.skip(j + 1), m2, fuel),
                None => None,
            }
        } else {
            None
        }
    } else if s[0] == ']' {
        None
    } else {
        match command_effect(s[0], m) {
            Some(m2) => exec(s.skip(1), m2, fuel),
            None => None,
        }
    }
}

/// Runs a loop's body while the cell under the head is not zero, for at
/// most `fuel` rounds.
pub open spec fn repeat_loop(body: Seq<char>, m: Machine, fuel: nat) -> Option<Machine>
    decreases fuel, body.len(),
{
    if m.0(m.1) == 0 {
        Some(m)
    } else if fuel == 0 {
        None
    } else {
        match exec(body, m, (fuel - 1) as nat) {
            Some(m2) => repeat_loop(body, m2, (fuel - 1) as nat),
            None => None,
        }
    }
}

/// The depth after one more character.
proof fn lemma_depth_step(a: Seq<char>, k: int)
    requires
        0 <= k < a.len(),
    ensures
        depth(a.take(k + 1)) == depth(a.take(k)) + bracket_step(a[k]),
{
    assert(a.take(k + 1).drop_last() =~= a.take(k));
}

/// A `[` is closed by one `]` at most.
proof fn lemma_match_unique(s: Seq<char>, j1: int, j2: int)
    requires
        brackets_match(s, 0, j1),
        brackets_match(s, 0, j2),
    ensures
        j1 == j2,
{
    if j1 < j2 {
        assert(depth(s.take(j1 + 1)) > depth(s.take(0)));
    }
    if j2 < j1 {
        assert(depth(s.take(j2 + 1)) > depth(s.take(0)));
    }
}

/// In a well nested text that starts with `[`, some `]` closes it; the
/// search goes on past the prefixes of length up to `k`, all above depth 0.
proof fn lemma_first_close(a: Seq<char>, k: int)
    requires
        emitted_at(a, 0),
        1 <= k <= a.len(),
        a[0] == '[',
        forall|i: int| 1 <= i <= k ==> depth(#[trigger] a.take(i)) > 0,
    ensures
        exists|j: int| brackets_match(a, 0, j),
    decreases a.len() - k,
{
    assert(a.take(a.len() as int) =~= a);
    assert(a.take(0) =~= Seq::<char>::empty());
    lemma_low_prefixes(a);
    lemma_depth_step(a, k);
    if depth(a.take(k + 1)) == 0 {
        assert(brackets_match(a, 0, k));
    } else {
        assert(depth(a.take(k + 1)) >= low(a));
        lemma_first_close(a, k + 1);
    }
}

/// The rest of a well nested text after a prefix back at depth 0 is well
/// nested.
proof fn lemma_skip_balanced(a: Seq<char>, k: int)
    requires
        emitted_at(a, 0),
        0 <= k <= a.len(),
        depth(a.take(k)) == 0,
    ensures
        emitted_at(a.skip(k), 0),
{
    assert(a =~= a.take(k) + a.skip(k));
    lemma_concat(a.take(k), a.skip(k));
    assert forall|i: int| 0 <= i < a.skip(k).len() implies is_bf_command(#[trigger] a.skip(k)[i]) by {
        assert(a.skip(k)[i] == a[k + i]);
    }
}

/// Running a well nested text and then more text is running the first,
/// then the second.
pub proof fn lemma_exec_concat(a: Seq<char>, b: Seq<char>, m: Machine, fuel: nat)
    requires
        emitted_at(a, 0),
    ensures
        exec(a + b, m, fuel) == (match exec(a, m, fuel) {
            Some(m2) => exec(b, m2, fuel),
            None => None,
        }),
    decreases a.len(),
{
    if a.len() == 0 {
        assert(a + b =~= b);
    } else {
        let s = a + b;
        assert(s[0] == a[0]);
        assert(a.take(0) =~= Seq::<char>::empty());
        lemma_depth_step(a, 0);
        lemma_low_prefixes(a);
        if a[0] == '[' {
            lemma_first_close(a, 1);
            let j = choose|j: int| brackets_match(a, 0, j);
            assert forall|k: int| 0 <= k <= a.len() implies #[trigger] s.take(k) == a.take(k) by {
                assert(s.take(k) =~= a.take(k));
            }
            assert(s.take(0) == a.take(0));
            assert(s.take(j + 1) == a.take(j + 1));
            assert(s[j] == a[j]);
            assert forall|k: int| 0 < k <= j implies depth(#[trigger] s.take(k)) > depth(s.take(0)) by {
                assert(s.take(k) == a.take(k));
            }
            assert(brackets_match(s, 0, j));
            lemma_match_unique(s, loop_end(s), j);
            lemma_match_unique(a, loop_end(a), j);
            assert(s.subrange(1, j) =~= a.subrange(1, j));
            assert(s.skip(j + 1) =~= a.skip(j + 1) + b);
            lemma_skip_balanced(a, j + 1);
            if let Some(m2) = repeat_loop(a.subrange(1, j), m, fuel) {
                lemma_exec_concat(a.skip(j + 1), b, m2, fuel);
            }
        } else {
            assert(a[0] != ']');
            assert(s.skip(1) =~= a.skip(1) + b);
            lemma_skip_balanced(a, 1);
            if let Some(m2) = command_effect(a[0], m) {
                lemma_exec_concat(a.skip(1), b, m2, fuel);
            }
        }
    }
}

/// Running a single command.
proof fn lemma_exec_one(c: char, m: Machine, fuel: nat)
    requires
        c != '[',
        c != ']',
    ensures
        exec(seq![c], m, fuel) == command_effect(c, m),
{
    assert(seq![c].skip(1) =~= Seq::<char>::empty());
    assert(seq![c][0] == c);
    if let Some(m2) = command_effect(c, m) {
        assert(exec(Seq::<char>::empty(), m2, fuel) == Some(m2));
    }
}

/// Running `unit`, a single command, `n + 1` times is running it `n` times
/// and then once more.
proof fn lemma_exec_repeat_step(unit: Seq<char>, n: nat, m: Machine, fuel: nat)
    requires
        unit.len() == 1,
        is_bf_command(unit[0]),
        bracket_step(unit[0]) == 0,
    ensures
        exec(repeat_seq(unit, n + 1), m, fuel) == (match exec(repeat_seq(unit, n), m, fuel) {
            Some(m2) => command_effect(unit[0], m2),
            None => None,
        }),
{
    lemma_repeat_flat(unit, n);
    assert(repeat_seq(unit, n + 1) == repeat_seq(unit, n) + unit);
    lemma_exec_concat(repeat_seq(unit, n), unit, m, fuel);
    assert(unit =~= seq![unit[0]]);
    if let Some(m2) = exec(repeat_seq(unit, n), m, fuel) {
        lemma_exec_one(unit[0], m2, fuel);
    }
}

/// `n` steps right or left.
proof fn lemma_exec_steps(n: nat, t: spec_fn(int) -> int, h: int, fuel: nat)
    ensures
        exec(repeat_seq(">"@, n), (t, h), fuel) == Some((t, h + n)),
        exec(repeat_seq("<"@, n), (t, h), fuel) == Some((t, h - n)),
    decreases n,
{
    reveal_strlit(">");
    reveal_strlit("<");
    if n == 0 {
    } else {
        lemma_exec_steps((n - 1) as nat, t, h, fuel);
        lemma_exec_repeat_step(">"@, (n - 1) as nat, (t, h), fuel);
        lemma_exec_repeat_step("<"@, (n - 1) as nat, (t, h), fuel);
    }
}

/// The head moves of `go` between static cells take the head there.
pub proof fn lemma_exec_go(st: usize, dy: usize, p: usize, at: usize, t: spec_fn(int) -> int, fuel: nat)
    requires
        p <= isize::MAX,
        at <= isize::MAX,
    ensures
        exec(go_code(st, dy, p, at), (t, p as int), fuel) == Some((t, at as int)),
{
    lemma_go_static(st, dy, p, at);
    let d = go_delta(st, dy, p, at);
    if d >= 0 {
        lemma_exec_steps(d as nat, t, p as int, fuel);
    } else {
        lemma_exec_steps((-d) as nat, t, p as int, fuel);
    }
}

/// `n` increments or decrements of the cell under the head, wrapping
/// around at 256.
proof fn lemma_exec_counts(n: nat, t: spec_fn(int) -> int, h: int, fuel: nat)
    requires
        tape_ok(t),
    ensures
        exec(repeat_seq("+"@, n), (t, h), fuel) == Some((with_cell(t, h, (t(h) + n) % 256), h)),
        exec(repeat_seq("-"@, n), (t, h), fuel) == Some((with_cell(t, h, (t(h) - n) % 256), h)),
    decreases n,
{
    reveal_strlit("+");
    reveal_strlit("-");
    if n == 0 {
        assert(with_cell(t, h, (t(h) + n) % 256) =~= t);
        assert(with_cell(t, h, (t(h) - n) % 256) =~= t);
    } else {
        lemma_exec_counts((n - 1) as nat, t, h, fuel);
        lemma_exec_repeat_step("+"@, (n - 1) as nat, (t, h), fuel);
        lemma_exec_repeat_step("-"@, (n - 1) as nat, (t, h), fuel);
        let up = (t(h) + (n - 1)) % 256;
        let down = (t(h) - (n - 1)) % 256;
        lemma_add_mod_noop_right(1, t(h) + (n - 1), 256);
        lemma_add_mod_noop_right(255, t(h) - (n - 1), 256);
        assert((255 + (t(h) - (n - 1))) % 256 == (t(h) - n) % 256) by {
            vstd::arithmetic::div_mod::lemma_mod_add_multiples_vanish(t(h) - n, 256);
        }
        assert(with_cell(with_cell(t, h, up), h, (up + 1) % 256) =~= with_cell(t, h, (t(h) + n) % 256));
        assert(with_cell(with_cell(t, h, down), h, (down + 255) % 256) =~= with_cell(t, h, (t(h) - n) % 256));
    }
}

/// The `+`/`-` run of `add` adds its value to the cell under the head,
/// wrapping around at 256.
pub proof fn lemma_exec_add(v: i8, t: spec_fn(int) -> int, h: int, fuel: nat)
    requires
        tape_ok(t),
    ensures
        exec(add_code(v), (t, h), fuel) == Some((with_cell(t, h, (t(h) + v) % 256), h)),
{
    if v >= 0 {
        lemma_exec_counts(v as nat, t, h, fuel);
    } else {
        lemma_exec_counts((-v) as nat, t, h, fuel);
    }
}

/// The total factor that `dests` add into cell `x` per round.
pub open spec fn weight(dests: Seq<(usize, i8)>, x: int) -> int
    decreases dests.len(),
{
    if dests.len() == 0 {
        0
    } else {
        weight(dests.drop_last(), x) + (if dests.last().0 == x {
            dests.last().1 as int
        } else {
            0
        })
    }
}

/// Moving `n` rounds adds `n` times each cell's weight to it, wrapping
/// around at 256.
pub proof fn lemma_moves_closed(t: spec_fn(int) -> int, dests: Seq<(usize, i8)>, n: int)
    requires
        tape_ok(t),
    ensures
        forall|x: int| #[trigger] moves_effect(t, dests, n)(x) == (t(x) + n * weight(dests, x)) % 256,
        tape_ok(moves_effect(t, dests, n)),
    decreases dests.len(),
{
    if dests.len() == 0 {
        assert forall|x: int| #[trigger] moves_effect(t, dests, n)(x) == (t(x) + n * weight(dests, x)) % 256 by {
            assert(n * 0 == 0);
        }
    } else {
        let rest = dests.drop_last();
        let d = dests.last();
        lemma_moves_closed(t, rest, n);
        let t1 = moves_effect(t, rest, n);
        assert forall|x: int| #[trigger] moves_effect(t, dests, n)(x) == (t(x) + n * weight(dests, x)) % 256 by {
            if x == d.0 {
                let w = weight(rest, x);
                lemma_add_mod_noop_right(d.1 * n, t(x) + n * w, 256);
                assert(n * (w + d.1) == n * w + d.1 * n) by (nonlinear_arith);
            }
        }
    }
    assert forall|x: int| 0 <= #[trigger] moves_effect(t, dests, n)(x) < 256 by {
        assert(moves_effect(t, dests, n)(x) == (t(x) + n * weight(dests, x)) % 256);
    }
}

/// The text moving to each destination in turn and adding its factor adds
/// each factor once.
proof fn lemma_exec_moves(
    st: usize,
    dy: usize,
    p: usize,
    code: Seq<char>,
    dests: Seq<(usize, i8)>,
    t: spec_fn(int) -> int,
    fuel: nat,
)
    requires
        p <= isize::MAX,
        dests_within(dests, addressable()),
        tape_ok(t),
    ensures
        moves_spec(st, dy, Some((p, code)), dests) matches Some((p2, code2)) && code.is_prefix_of(code2) && flat(
            code2.skip(code.len() as int),
        ) && exec(code2.skip(code.len() as int), (t, p as int), fuel) == Some(
            (moves_effect(t, dests, 1), p2 as int),
        ),
    decreases dests.len(),
{
    lemma_moves_shift(st, dy, p, code, dests);
    if dests.len() > 0 {
        let d = dests.drop_last();
        assert(dests_within(d, addressable())) by {
            assert forall|j: int| 0 <= j < d.len() implies d[j].0 < addressable() by {
                assert(d[j] == dests[j]);
            }
        }
        lemma_exec_moves(st, dy, p, code, d, t, fuel);
        lemma_moves_shift(st, dy, p, code, d);
        let (p1, c1) = moves_spec(st, dy, Some((p, code)), d).unwrap();
        let last = dests.last();
        assert(last.0 < addressable()) by {
            assert(dests[dests.len() - 1].0 < addressable());
        }
        lemma_literal_shifts();
        lemma_go_push_shift(st, dy, p1, c1, last.0, Seq::empty());
        let g = go_code(st, dy, p1, last.0);
        let c2 = c1 + g + Seq::empty() + add_code(last.1);
        lemma_prefix_rest(code, c1);
        let m1 = c1.skip(code.len() as int);
        assert(c2.skip(code.len() as int) =~= m1 + (g + add_code(last.1)));
        lemma_moves_closed(t, d, 1);
        lemma_exec_flat_pieces(st, dy, p1, last.0, last.1, moves_effect(t, d, 1), fuel);
        lemma_flat_concat(m1, g + add_code(last.1));
        lemma_flat_returning(m1);
        lemma_exec_concat(m1, g + add_code(last.1), (t, p as int), fuel);
    } else {
        assert(code.skip(code.len() as int) =~= Seq::<char>::empty());
        assert(moves_effect(t, dests, 1) == t);
        assert(flat(Seq::<char>::empty()));
    }
}

/// Going to a static cell and adding to it.
proof fn lemma_exec_flat_pieces(
    st: usize,
    dy: usize,
    p: usize,
    at: usize,
    v: i8,
    t: spec_fn(int) -> int,
    fuel: nat,
)
    requires
        p <= isize::MAX,
        at <= isize::MAX,
        tape_ok(t),
    ensures
        flat(go_code(st, dy, p, at) + add_code(v)),
        exec(go_code(st, dy, p, at) + add_code(v), (t, p as int), fuel) == Some(
            (with_cell(t, at as int, (t(at as int) + v * 1) % 256), at as int),
        ),
{
    let g = go_code(st, dy, p, at);
    lemma_go_code_flat(st, dy, p, at);
    lemma_add_code_flat(v);
    lemma_flat_concat(g, add_code(v));
    lemma_flat_returning(g);
    lemma_exec_concat(g, add_code(v), (t, p as int), fuel);
    lemma_exec_go(st, dy, p, at, t, fuel);
    lemma_exec_add(v, t, at as int, fuel);
}

/// Running a loop runs its body while the cell under the head is not zero.
pub proof fn lemma_exec_wrap(inner: Seq<char>, m: Machine, fuel: nat)
    requires
        emitted_at(inner, 0),
    ensures
        exec("["@ + inner + "]"@, m, fuel) == repeat_loop(inner, m, fuel),
{
    reveal_strlit("[");
    reveal_strlit("]");
    let o = seq!['['];
    let c = seq![']'];
    assert("["@ =~= o);
    assert("]"@ =~= c);
    let s = o + inner + c;
    let n = inner.len() as int;
    lemma_low_prefixes(inner);
    lemma_push(Seq::<char>::empty(), '[');
    assert(Seq::<char>::empty().push('[') =~= o);
    lemma_push(Seq::<char>::empty(), ']');
    assert(Seq::<char>::empty().push(']') =~= c);
    lemma_concat(o, inner);
    lemma_concat(o + inner, c);
    assert(s.take(0) =~= Seq::<char>::empty());
    assert(s.take(n + 2) =~= s);
    assert forall|k: int| 0 < k <= n + 1 implies depth(#[trigger] s.take(k)) > depth(s.take(0)) by {
        assert(s.take(k) =~= o + inner.take(k - 1));
        lemma_concat(o, inner.take(k - 1));
    }
    assert(s[0] == '[');
    assert(s[n + 1] == ']');
    assert(brackets_match(s, 0, n + 1));
    lemma_match_unique(s, loop_end(s), n + 1);
    assert(s.subrange(1, n + 1) =~= inner);
    assert(s.skip(n + 2) =~= Seq::<char>::empty());
    if let Some(m2) = repeat_loop(inner, m, fuel) {
        assert(exec(Seq::<char>::empty(), m2, fuel) == Some(m2));
    }
}

/// No destination is cell `x`: moving adds nothing to it.
proof fn lemma_weight_absent(dests: Seq<(usize, i8)>, x: int)
    requires
        forall|j: int| 0 <= j < dests.len() ==> dests[j].0 != x,
    ensures
        weight(dests, x) == 0,
    decreases dests.len(),
{
    if dests.len() > 0 {
        let d = dests.drop_last();
        assert forall|j: int| 0 <= j < d.len() implies d[j].0 != x by {
            assert(d[j] == dests[j]);
        }
        lemma_weight_absent(d, x);
        assert(dests.last() == dests[dests.len() - 1]);
    }
}

/// One round of a move's loop: take one from the source, add each factor
/// into its destination, and go back to the source; `c1` is the text
/// before it.
pub open spec fn move_round(st: usize, dy: usize, src: usize, c1: Seq<char>, dests: Seq<(usize, i8)>) -> Seq<
    char,
> {
    let (p2, c2) = moves_spec(st, dy, Some((src, c1)), dests).unwrap();
    "-"@ + c2.skip(c1.len() as int) + go_code(st, dy, p2, src)
}

proof fn lemma_exec_round(
    st: usize,
    dy: usize,
    src: usize,
    c1: Seq<char>,
    dests: Seq<(usize, i8)>,
    t: spec_fn(int) -> int,
    fuel: nat,
)
    requires
        src <= isize::MAX,
        dests_within(dests, addressable()),
        tape_ok(t),
        t(src as int) >= 1,
    ensures
        flat(move_round(st, dy, src, c1, dests)),
        exec(move_round(st, dy, src, c1, dests), (t, src as int), fuel) == Some(
            (moves_effect(with_cell(t, src as int, t(src as int) - 1), dests, 1), src as int),
        ),
{
    reveal_strlit("-");
    let ta = with_cell(t, src as int, t(src as int) - 1);
    assert(tape_ok(ta)) by {
        assert forall|i: int| 0 <= #[trigger] ta(i) < 256 by {
            assert(0 <= t(i) < 256);
        }
    }
    lemma_exec_moves(st, dy, src, c1, dests, ta, fuel);
    lemma_moves_shift(st, dy, src, c1, dests);
    let (p2, c2) = moves_spec(st, dy, Some((src, c1)), dests).unwrap();
    let m = c2.skip(c1.len() as int);
    let g2 = go_code(st, dy, p2, src);
    let te = moves_effect(ta, dests, 1);
    assert("-"@ =~= seq!['-']);
    lemma_exec_one('-', (t, src as int), fuel);
    assert(with_cell(t, src as int, (t(src as int) + 255) % 256) =~= ta);
    assert(flat("-"@));
    lemma_go_code_flat(st, dy, p2, src);
    lemma_flat_concat(m, g2);
    lemma_flat_concat("-"@, m + g2);
    assert("-"@ + m + g2 =~= "-"@ + (m + g2));
    lemma_flat_returning("-"@);
    lemma_flat_returning(m);
    lemma_exec_concat("-"@, m + g2, (t, src as int), fuel);
    lemma_exec_concat(m, g2, (ta, src as int), fuel);
    lemma_exec_go(st, dy, p2, src, te, fuel);
}

/// A move's loop runs as many rounds as its source holds: the source ends
/// at zero and each destination gains its factor that many times.
proof fn lemma_rounds(
    st: usize,
    dy: usize,
    src: usize,
    c1: Seq<char>,
    dests: Seq<(usize, i8)>,
    t: spec_fn(int) -> int,
    fuel: nat,
)
    requires
        src <= isize::MAX,
        dests_within(dests, addressable()),
        forall|j: int| 0 <= j < dests.len() ==> dests[j].0 != src,
        tape_ok(t),
        t(src as int) <= fuel,
    ensures
        repeat_loop(move_round(st, dy, src, c1, dests), (t, src as int), fuel) == Some(
            (with_cell(moves_effect(t, dests, t(src as int)), src as int, 0), src as int),
        ),
    decreases t(src as int),
{
    let v = t(src as int);
    let round = move_round(st, dy, src, c1, dests);
    lemma_weight_absent(dests, src as int);
    lemma_moves_closed(t, dests, v);
    if v == 0 {
        assert forall|x: int| #[trigger] with_cell(moves_effect(t, dests, v), src as int, 0)(x) == t(x) by {
            assert(v * weight(dests, x) == 0);
            assert(0 <= t(x) < 256);
        }
        assert(with_cell(moves_effect(t, dests, v), src as int, 0) =~= t);
    } else {
        let ta = with_cell(t, src as int, v - 1);
        assert(tape_ok(ta)) by {
            assert forall|i: int| 0 <= #[trigger] ta(i) < 256 by {
                assert(0 <= t(i) < 256);
            }
        }
        lemma_exec_round(st, dy, src, c1, dests, t, (fuel - 1) as nat);
        let t2 = moves_effect(ta, dests, 1);
        lemma_moves_closed(ta, dests, 1);
        assert(t2(src as int) == v - 1);
        lemma_rounds(st, dy, src, c1, dests, t2, (fuel - 1) as nat);
        lemma_moves_closed(t2, dests, v - 1);
        assert forall|x: int| #[trigger] with_cell(moves_effect(t2, dests, v - 1), src as int, 0)(x) == with_cell(
            moves_effect(t, dests, v),
            src as int,
            0,
        )(x) by {
            if x != src as int {
                let w = weight(dests, x);
                assert(t2(x) == (t(x) + 1 * w) % 256);
                lemma_add_mod_noop_right((v - 1) * w, t(x) + 1 * w, 256);
                assert(t(x) + 1 * w + (v - 1) * w == t(x) + v * w) by (nonlinear_arith);
            }
        }
        assert(with_cell(moves_effect(t2, dests, v - 1), src as int, 0) =~= with_cell(
            moves_effect(t, dests, v),
            src as int,
            0,
        ));
    }
}

/// The text of a move: go to the source, then one loop of rounds.
#[verifier::spinoff_prover]
#[verifier::rlimit(30)]
proof fn lemma_move_text(st: usize, dy: usize, p: usize, code: Seq<char>, source: usize, dests: Vec<(usize, i8)>)
    requires
        p <= isize::MAX,
        op_within(OpView::Move(source, dests@), addressable()),
    ensures
        op_spec(st, dy, Some((p, code)), AssemblyOp::Move(source, dests)) matches Some((p2, code2)) && p2 == source
            && code2.skip(code.len() as int) == go_code(st, dy, p, source) + ("["@ + move_round(
            st,
            dy,
            source,
            code + go_code(st, dy, p, source) + "[-"@,
            dests@,
        ) + "]"@),
{
    reveal_strlit("[");
    reveal_strlit("-");
    reveal_strlit("[-");
    lemma_literal_shifts();
    let g = go_code(st, dy, p, source);
    lemma_go_push_shift(st, dy, p, code, source, "[-"@);
    let c1 = code + g + "[-"@;
    lemma_moves_shift(st, dy, source, c1, dests@);
    let (p2, c2) = moves_spec(st, dy, Some((source, c1)), dests@).unwrap();
    lemma_go_push_shift(st, dy, p2, c2, source, "]"@);
    let g2 = go_code(st, dy, p2, source);
    lemma_prefix_rest(c1, c2);
    let round = move_round(st, dy, source, c1, dests@);
    assert(round == "-"@ + c2.skip(c1.len() as int) + g2);
    let c3 = c2 + g2 + "]"@;
    assert(c3.skip(code.len() as int) =~= g + ("["@ + round + "]"@));
}

/// The text of a move runs its loop on the source.
proof fn lemma_exec_move(
    st: usize,
    dy: usize,
    p: usize,
    code: Seq<char>,
    source: usize,
    dests: Vec<(usize, i8)>,
    t: spec_fn(int) -> int,
    fuel: nat,
)
    requires
        p <= isize::MAX,
        op_within(OpView::Move(source, dests@), addressable()),
        forall|j: int| 0 <= j < dests@.len() ==> dests@[j].0 != source,
        tape_ok(t),
        fuel >= 256,
    ensures
        op_spec(st, dy, Some((p, code)), AssemblyOp::Move(source, dests)) matches Some((p2, code2)) && exec(
            code2.skip(code.len() as int),
            (t, p as int),
            fuel,
        ) == Some((with_cell(moves_effect(t, dests@, t(source as int)), source as int, 0), p2 as int)),
{
    let g = go_code(st, dy, p, source);
    let c1 = code + g + "[-"@;
    lemma_move_text(st, dy, p, code, source, dests);
    let round = move_round(st, dy, source, c1, dests@);
    lemma_exec_round_flat(st, dy, source, c1, dests@);
    lemma_go_code_flat(st, dy, p, source);
    lemma_flat_returning(g);
    lemma_flat_returning(round);
    lemma_exec_concat(g, "["@ + round + "]"@, (t, p as int), fuel);
    lemma_exec_go(st, dy, p, source, t, fuel);
    lemma_exec_wrap(round, (t, source as int), fuel);
    lemma_rounds(st, dy, source, c1, dests@, t, fuel);
}

/// A move's round is flat: it opens and closes no loop.
proof fn lemma_exec_round_flat(st: usize, dy: usize, src: usize, c1: Seq<char>, dests: Seq<(usize, i8)>)
    requires
        src <= isize::MAX,
        dests_within(dests, addressable()),
    ensures
        flat(move_round(st, dy, src, c1, dests)),
{
    lemma_exec_round(st, dy, src, c1, dests, |i: int| 1int, 0);
}

/// The text of setting a cell clears it in a loop and adds the value.
proof fn lemma_exec_set(
    st: usize,
    dy: usize,
    p: usize,
    code: Seq<char>,
    ptr: usize,
    val: i8,
    t: spec_fn(int) -> int,
    fuel: nat,
)
    requires
        p <= isize::MAX,
        ptr < addressable(),
        tape_ok(t),
        fuel >= 256,
    ensures
        op_spec(st, dy, Some((p, code)), AssemblyOp::SetCell(ptr, val)) matches Some((p2, code2)) && exec(
            code2.skip(code.len() as int),
            (t, p as int),
            fuel,
        ) == Some((with_cell(t, ptr as int, (val as int) % 256), p2 as int)),
{
    reveal_strlit("[");
    reveal_strlit("]");
    reveal_strlit("-");
    reveal_strlit("[-]");
    lemma_literal_shifts();
    let g = go_code(st, dy, p, ptr);
    lemma_go_push_shift(st, dy, p, code, ptr, "[-]"@);
    let none = Seq::<(usize, i8)>::empty();
    let round = move_round(st, dy, ptr, code, none);
    lemma_go_static(st, dy, ptr, ptr);
    assert(code.skip(code.len() as int) =~= Seq::<char>::empty());
    assert(go_code(st, dy, ptr, ptr) =~= Seq::<char>::empty());
    assert(round =~= "-"@);
    assert("[-]"@ =~= "["@ + round + "]"@);
    let c2 = code + g + "[-]"@ + add_code(val);
    assert(c2.skip(code.len() as int) =~= g + ("[-]"@ + add_code(val)));
    lemma_go_code_flat(st, dy, p, ptr);
    lemma_flat_returning(g);
    assert(flat(round)) by {
        assert(flat("-"@)) by {
            assert("-"@ =~= seq!['-']);
        }
    }
    lemma_flat_returning(round);
    lemma_exec_concat(g, "[-]"@ + add_code(val), (t, p as int), fuel);
    lemma_exec_go(st, dy, p, ptr, t, fuel);
    lemma_exec_wrap_balanced(round);
    lemma_exec_concat("[-]"@, add_code(val), (t, ptr as int), fuel);
    lemma_exec_wrap(round, (t, ptr as int), fuel);
    lemma_rounds(st, dy, ptr, code, none, t, fuel);
    let t0 = with_cell(moves_effect(t, none, t(ptr as int)), ptr as int, 0);
    assert(t0 =~= with_cell(t, ptr as int, 0));
    assert(tape_ok(t0)) by {
        assert forall|i: int| 0 <= #[trigger] t0(i) < 256 by {
            assert(0 <= t(i) < 256);
        }
    }
    lemma_exec_add(val, t0, ptr as int, fuel);
    assert(with_cell(t0, ptr as int, (t0(ptr as int) + val) % 256) =~= with_cell(t, ptr as int, (val as int) % 256));
}

/// A loop around a well nested body is well nested.
proof fn lemma_exec_wrap_balanced(inner: Seq<char>)
    requires
        emitted_at(inner, 0),
    ensures
        emitted_at("["@ + inner + "]"@, 0),
{
    reveal_strlit("[");
    reveal_strlit("]");
    let o = seq!['['];
    let c = seq![']'];
    assert("["@ =~= o);
    assert("]"@ =~= c);
    lemma_push(Seq::<char>::empty(), '[');
    assert(Seq::<char>::empty().push('[') =~= o);
    lemma_push(Seq::<char>::empty(), ']');
    assert(Seq::<char>::empty().push(']') =~= c);
    lemma_concat(o, inner);
    lemma_concat(o + inner, c);
}

/// The text of an addition adds to its cell.
proof fn lemma_exec_add_op(
    st: usize,
    dy: usize,
    p: usize,
    code: Seq<char>,
    ptr: usize,
    val: i8,
    t: spec_fn(int) -> int,
    fuel: nat,
)
    requires
        p <= isize::MAX,
        ptr < addressable(),
        tape_ok(t),
    ensures
        op_spec(st, dy, Some((p, code)), AssemblyOp::Add(ptr, val)) matches Some((p2, code2)) && exec(
            code2.skip(code.len() as int),
            (t, p as int),
            fuel,
        ) == Some((with_cell(t, ptr as int, (t(ptr as int) + val) % 256), p2 as int)),
{
    lemma_literal_shifts();
    let g = go_code(st, dy, p, ptr);
    lemma_go_push_shift(st, dy, p, code, ptr, Seq::empty());
    let c2 = code + g + Seq::empty() + add_code(val);
    assert(c2.skip(code.len() as int) =~= g + add_code(val));
    lemma_exec_flat_pieces(st, dy, p, ptr, val, t, fuel);
}

/// A straight-line operation keeps every cell between 0 and 255.
proof fn lemma_op_effect_ok(t: spec_fn(int) -> int, op: OpView)
    requires
        tape_ok(t),
        op_effect(t, op) is Some,
    ensures
        tape_ok(op_effect(t, op).unwrap()),
{
    let t2 = op_effect(t, op).unwrap();
    if let OpView::Move(src, dests) = op {
        lemma_moves_closed(t, dests, t(src as int));
    }
    assert forall|i: int| 0 <= #[trigger] t2(i) < 256 by {
        assert(0 <= t(i) < 256);
        if let OpView::Move(src, dests) = op {
            assert(0 <= moves_effect(t, dests, t(src as int))(i) < 256);
        }
    }
}

/// The text of one straight-line operation does what the operation does.
proof fn lemma_exec_op(
    st: usize,
    dy: usize,
    p: usize,
    code: Seq<char>,
    op: AssemblyOp,
    t: spec_fn(int) -> int,
    fuel: nat,
)
    requires
        p <= isize::MAX,
        op_within(op.deep(), addressable()),
        tape_ok(t),
        fuel >= 256,
        op_effect(t, op.deep()) is Some,
    ensures
        op_spec(st, dy, Some((p, code)), op) matches Some((p2, code2)) && exec(
            code2.skip(code.len() as int),
            (t, p as int),
            fuel,
        ) == Some((op_effect(t, op.deep()).unwrap(), p2 as int)),
{
    match op {
        AssemblyOp::Move(source, dests) => {
            assert(op.deep() == OpView::Move(source, dests@));
            lemma_exec_move(st, dy, p, code, source, dests, t, fuel);
        },
        AssemblyOp::SetCell(ptr, val) => {
            lemma_exec_set(st, dy, p, code, ptr, val, t, fuel);
        },
        AssemblyOp::Add(ptr, val) => {
            lemma_exec_add_op(st, dy, p, code, ptr, val, t, fuel);
        },
        _ => {},
    }
}

/// Running what assembling appends, for straight-line operations on
/// static cells only, each at most `isize::MAX`: from the tape `t` and the
/// head on cell `p`, where assembling starts, the text does to the tape
/// what the operations do, each of its loops running fewer than 256
/// rounds, and leaves the head on the cell where assembling records it.
#[verifier::spinoff_prover]
pub proof fn lemma_block_runs(
    st: usize,
    dy: usize,
    p: usize,
    code: Seq<char>,
    ops: Seq<AssemblyOp>,
    t: spec_fn(int) -> int,
    fuel: nat,
)
    requires
        p <= isize::MAX,
        ops_within(ops_deep(ops), addressable()),
        tape_ok(t),
        fuel >= 256,
        run(t, ops_deep(ops)) is Some,
    ensures
        block_spec(st, dy, Some((p, code)), ops) matches Some((p2, code2)) && exec(
            code2.skip(code.len() as int),
            (t, p as int),
            fuel,
        ) == Some((run(t, ops_deep(ops)).unwrap(), p2 as int)),
        tape_ok(run(t, ops_deep(ops)).unwrap()),
    decreases ops,
{
    lemma_block_loops(st, dy, p, code, ops);
    let (p2, code2) = block_spec(st, dy, Some((p, code)), ops).unwrap();
    if ops.len() == 0 {
        assert(code.skip(code.len() as int) =~= Seq::<char>::empty());
    } else {
        let rest = ops.drop_last();
        let x = ops_deep(ops);
        assert(x.drop_last() =~= ops_deep(rest));
        assert(x.last() == ops.last().deep());
        lemma_ops_within_push(ops_deep(rest), ops.last().deep(), addressable());
        lemma_block_runs(st, dy, p, code, rest, t, fuel);
        lemma_block_loops(st, dy, p, code, rest);
        lemma_block_tracking(st, dy, p, code, rest);
        let (p1, c1) = block_spec(st, dy, Some((p, code)), rest).unwrap();
        let t1 = run(t, ops_deep(rest)).unwrap();
        lemma_runs_step(st, dy, p, code, p1, c1, t, t1, ops.last(), fuel);
    }
}

/// One more operation after a run.
proof fn lemma_runs_step(
    st: usize,
    dy: usize,
    p: usize,
    code: Seq<char>,
    p1: usize,
    c1: Seq<char>,
    t: spec_fn(int) -> int,
    t1: spec_fn(int) -> int,
    op: AssemblyOp,
    fuel: nat,
)
    requires
        code.is_prefix_of(c1),
        emitted_at(c1.skip(code.len() as int), 0),
        exec(c1.skip(code.len() as int), (t, p as int), fuel) == Some((t1, p1 as int)),
        p1 <= isize::MAX,
        op_within(op.deep(), addressable()),
        tape_ok(t1),
        fuel >= 256,
        op_effect(t1, op.deep()) is Some,
    ensures
        op_spec(st, dy, Some((p1, c1)), op) matches Some((p2, c2)) && exec(
            c2.skip(code.len() as int),
            (t, p as int),
            fuel,
        ) == Some((op_effect(t1, op.deep()).unwrap(), p2 as int)),
        tape_ok(op_effect(t1, op.deep()).unwrap()),
{
    lemma_exec_op(st, dy, p1, c1, op, t1, fuel);
    lemma_op_effect_ok(t1, op.deep());
    lemma_op_tracking(st, dy, p1, c1, op);
    let (p2, c2) = op_spec(st, dy, Some((p1, c1)), op).unwrap();
    lemma_prefix_rest(code, c1);
    lemma_prefix_rest(c1, c2);
    assert(c2.skip(code.len() as int) =~= c1.skip(code.len() as int) + c2.skip(c1.len() as int));
    lemma_exec_concat(c1.skip(code.len() as int), c2.skip(c1.len() as int), (t, p as int), fuel);
}

/// Straight-line code on static cells only, each at most `isize::MAX`:
/// the assembled text, run from cell 0 on a tape of cells between 0 and
/// 255, does to the tape what the operations do.
pub proof fn lemma_program_runs(prog: AssemblyProgram, t: spec_fn(int) -> int)
    requires
        ops_within(ops_deep(prog.code@), addressable()),
        tape_ok(t),
        run(t, ops_deep(prog.code@)) is Some,
    ensures
        prog.assemble_spec() matches Some(text) && exec(text, (t, 0), 256) matches Some((t2, _)) && t2 == run(
            t,
            ops_deep(prog.code@),
        ).unwrap(),
{
    lemma_block_runs(
        prog.static_memory_size,
        prog.dynamic_memory_block_size,
        0,
        Seq::empty(),
        prog.code@,
        t,
        256,
    );
    let text = prog.assemble_spec().unwrap();
    assert(text.skip(0) =~= text);
}

} // verus!
