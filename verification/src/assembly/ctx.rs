use vstd::prelude::*;
use vstd::string::*;

use crate::assembly::utils::{repeat, repeat_spec};
use crate::assembly::{ADDR_PTR, FETCH_VAL_PTR, SEND_VAL_PTR};

verus! {

/// The cell that the emitted code really moves to when it goes to `at`:
/// the three symbolic registers sit right behind the static memory and the
/// first dynamic memory block; every other cell is its own address.
pub open spec fn real_addr(st: usize, dy: usize, at: usize) -> int {
    if at == ADDR_PTR {
        st + dy + 2
    } else if at == FETCH_VAL_PTR {
        st + dy + 2 + 1
    } else if at == SEND_VAL_PTR {
        st + (dy + 2) * 2 + 1
    } else {
        at as int
    }
}

/// The signed distance that `go` computes, as the machine computes it.
pub open spec fn go_delta(st: usize, dy: usize, pointer: usize, at: usize) -> int {
    (real_addr(st, dy, at) as usize as isize) as int - (pointer as isize) as int
}

/// `go` neither overflows nor meets a distance whose absolute value does not fit.
pub open spec fn go_ok(st: usize, dy: usize, pointer: usize, at: usize) -> bool {
    &&& real_addr(st, dy, at) <= usize::MAX
    &&& isize::MIN < go_delta(st, dy, pointer, at) <= isize::MAX
}

/// The head moves that `go` emits.
pub open spec fn go_code(st: usize, dy: usize, pointer: usize, at: usize) -> Seq<char> {
    repeat_spec(go_delta(st, dy, pointer, at), ">"@, "<"@)
}

/// The `+`/`-` run that `add` emits.
pub open spec fn add_code(val: i8) -> Seq<char> {
    repeat_spec(val as int, "+"@, "-"@)
}

/// The state of an assembly run: where the head is believed to be, the code
/// emitted so far, and the memory layout.
pub struct AssembleContext {
    pub pointer: usize,
    pub code: String,
    pub static_memory_size: usize,
    pub dynamic_memory_block_size: usize,
}

impl AssembleContext {
    pub open spec fn spec_st(&self) -> usize {
        self.static_memory_size
    }

    pub open spec fn spec_dy(&self) -> usize {
        self.dynamic_memory_block_size
    }

    /// A context at cell 0 with no code, for the given memory layout.
    pub fn new(static_memory_size: usize, dynamic_memory_block_size: usize) -> (ctx: AssembleContext)
        ensures
            ctx.pointer == 0,
            ctx.code@ == Seq::<char>::empty(),
            ctx.st() == static_memory_size,
            ctx.dy() == dynamic_memory_block_size,
    {
        AssembleContext {
            pointer: 0,
            code: String::new(),
            static_memory_size,
            dynamic_memory_block_size,
        }
    }

    /// Moves the head to `at` and records `at` as the new position.
    pub fn go(&mut self, at: usize)
        requires
            go_ok(old(self).st(), old(self).dy(), old(self).pointer, at),
        ensures
            final(self).pointer == at,
            final(self).code@ == old(self).code@ + go_code(old(self).st(), old(self).dy(), old(self).pointer, at),
            final(self).st() == old(self).st(),
            final(self).dy() == old(self).dy(),
    {
        let real_at: usize = if at == ADDR_PTR {
            self.st() + self.dy() + 2
        } else if at == FETCH_VAL_PTR {
            self.st() + self.dy() + 2 + 1
        } else if at == SEND_VAL_PTR {
            self.st() + (self.dy() + 2) * 2 + 1
        } else {
            at
        };
        let delta: isize = (real_at as isize) - (self.pointer as isize);
        let moves = repeat(delta, ">", "<");
        self.push(moves.as_str());
        self.pointer = at;
    }

    /// Emits `val` increments, or `-val` decrements when `val` is negative.
    pub fn add(&mut self, val: i8)
        ensures
            final(self).pointer == old(self).pointer,
            final(self).code@ == old(self).code@ + add_code(val),
            final(self).st() == old(self).st(),
            final(self).dy() == old(self).dy(),
    {
        let s = repeat(val as isize, "+", "-");
        self.push(s.as_str());
    }

    /// Appends `str` to the code.
    pub fn push(&mut self, str: &str)
        ensures
            final(self).pointer == old(self).pointer,
            final(self).code@ == old(self).code@ + str@,
            final(self).st() == old(self).st(),
            final(self).dy() == old(self).dy(),
    {
        self.code.append(str);
    }

    /// The size of the static memory.
    #[verifier::when_used_as_spec(spec_st)]
    pub fn st(&self) -> (r: usize)
        ensures
            r == self.spec_st(),
    {
        self.static_memory_size
    }

    /// The size of one dynamic memory block.
    #[verifier::when_used_as_spec(spec_dy)]
    pub fn dy(&self) -> (r: usize)
        ensures
            r == self.spec_dy(),
    {
        self.dynamic_memory_block_size
    }
}

} // verus!
