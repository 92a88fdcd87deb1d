use std::collections::HashMap;

use vstd::prelude::*;

verus! {

broadcast use vstd::std_specs::hash::group_hash_axioms;

/// Why compiling the intermediate representation failed.
#[derive(Debug, Clone, Copy, PartialEq, Eq, Structural)]
pub enum CompileError {
    /// A cell was freed out of stack order.
    FreeMismatch,
    /// A variable is read or assigned that no enclosing scope defines.
    UndefinedVariable,
    /// A function is called while it is already being expanded.
    RecursiveCall,
    /// A function is called that the program does not define.
    UndefinedFunction,
    /// A call passes a different number of arguments than the function takes.
    ArgsLengthMismatch,
    /// An expression form the compiler does not lower yet.
    Unimplemented,
}

impl CompileError {
    /// The text of the error.
    pub open spec fn message_spec(self) -> Seq<char> {
        match self {
            CompileError::FreeMismatch => "Internal: Free mismatch"@,
            CompileError::UndefinedVariable => "Undefined variable detected"@,
            CompileError::RecursiveCall => "Recursive call detected"@,
            CompileError::UndefinedFunction => "Undefined function detected"@,
            CompileError::ArgsLengthMismatch => "Function args length mismatch"@,
            CompileError::Unimplemented => "todo"@,
        }
    }

    /// The text of the error.
    pub fn message(&self) -> (r: &'static str)
        ensures
            r@ == self.message_spec(),
    {
        match self {
            CompileError::FreeMismatch => "Internal: Free mismatch",
            CompileError::UndefinedVariable => "Undefined variable detected",
            CompileError::RecursiveCall => "Recursive call detected",
            CompileError::UndefinedFunction => "Undefined function detected",
            CompileError::ArgsLengthMismatch => "Function args length mismatch",
            CompileError::Unimplemented => "todo",
        }
    }
}

/// The compiler's bookkeeping as a value: the cells in use, the most ever in
/// use, the functions expanded so far, and the variable scopes, each with the
/// cell count at its opening and its names.
pub struct CState {
    pub usage: usize,
    pub max_usage: usize,
    pub callstack: Seq<usize>,
    pub var_map: Seq<(usize, Map<usize, usize>)>,
}

/// Opens a scope.
pub open spec fn push_spec(s: CState) -> CState {
    CState { var_map: s.var_map.push((s.usage, Map::empty())), ..s }
}

/// Closes the innermost scope and releases its cells; `None` when no scope is open.
pub open spec fn pop_spec(s: CState) -> Option<CState> {
    if s.var_map.len() == 0 {
        None
    } else {
        Some(CState { usage: s.var_map.last().0, var_map: s.var_map.drop_last(), ..s })
    }
}

/// Takes the next free cell; `None` when the count would overflow.
pub open spec fn alloc_noname_spec(s: CState) -> Option<(CState, usize)> {
    if s.usage == usize::MAX {
        None
    } else {
        let u = (s.usage + 1) as usize;
        Some((CState { usage: u, max_usage: if s.max_usage < u { u } else { s.max_usage }, ..s }, s.usage))
    }
}

/// Takes the next free cell and names it `id` in the innermost scope; `None`
/// when the count would overflow or no scope is open.
pub open spec fn alloc_spec(s: CState, id: usize) -> Option<(CState, usize)> {
    match alloc_noname_spec(s) {
        Some((s1, p)) => if s1.var_map.len() == 0 {
            None
        } else {
            let last = s1.var_map.last();
            Some((CState {
                var_map: s1.var_map.update(s1.var_map.len() - 1, (last.0, last.1.insert(id, p))),
                ..s1
            }, p))
        },
        None => None,
    }
}

/// Releases the last taken cell, which must be `ptr`; `None` when no cell is in use.
pub open spec fn free_spec(s: CState, ptr: usize) -> Option<Result<CState, CompileError>> {
    if s.usage == 0 {
        None
    } else if s.usage - 1 != ptr {
        Some(Err(CompileError::FreeMismatch))
    } else {
        Some(Ok(CState { usage: (s.usage - 1) as usize, ..s }))
    }
}

/// The cell of `id` in the innermost scope that names it.
pub open spec fn lookup(var_map: Seq<(usize, Map<usize, usize>)>, id: usize) -> Option<usize>
    decreases var_map.len(),
{
    if var_map.len() == 0 {
        None
    } else if var_map.last().1.contains_key(id) {
        Some(var_map.last().1[id])
    } else {
        lookup(var_map.drop_last(), id)
    }
}

/// The cell of `id`, or the error for an undefined variable.
pub open spec fn get_spec(s: CState, id: usize) -> Result<usize, CompileError> {
    match lookup(s.var_map, id) {
        Some(p) => Ok(p),
        None => Err(CompileError::UndefinedVariable),
    }
}

/// Closing a scope right after opening it gives the bookkeeping back.
pub proof fn lemma_pop_undoes_push(s: CState)
    ensures
        pop_spec(push_spec(s)) == Some(s),
{
    assert(push_spec(s).var_map.drop_last() =~= s.var_map);
}

/// Freeing the cell last taken, after steps that left the bookkeeping as
/// they found it but for the most cells ever used, gives back the
/// bookkeeping from before the cell was taken, with that most kept.
pub proof fn lemma_free_undoes_alloc(s: CState, s2: CState)
    requires
        alloc_noname_spec(s) matches Some((t, _)) && s2 == (CState { max_usage: s2.max_usage, ..t }),
    ensures
        free_spec(s2, s.usage) == Some(Ok::<CState, CompileError>(CState { max_usage: s2.max_usage, ..s })),
{
}

/// `s` is inside a scope opened from `s0`: the scopes below the innermost
/// are those of `s0`, and the innermost opened where `s0`'s cells in use ended.
pub open spec fn in_scope(s0: CState, s: CState) -> bool {
    &&& s.var_map.len() == s0.var_map.len() + 1
    &&& s.var_map.drop_last() == s0.var_map
    &&& s.var_map.last().0 == s0.usage
}

/// Opening a scope puts the bookkeeping inside it.
pub proof fn lemma_scope_opens(s0: CState)
    ensures
        in_scope(s0, push_spec(s0)),
{
    assert(push_spec(s0).var_map.drop_last() =~= s0.var_map);
}

/// Taking cells, named or not, and freeing them keeps the bookkeeping inside the scope.
pub proof fn lemma_scope_cells(s0: CState, s: CState, id: usize, p: usize)
    requires
        in_scope(s0, s),
    ensures
        alloc_noname_spec(s) matches Some((s2, _)) ==> in_scope(s0, s2),
        alloc_spec(s, id) matches Some((s2, _)) ==> in_scope(s0, s2),
        free_spec(s, p) matches Some(Ok(s2)) ==> in_scope(s0, s2),
{
    if let Some((s1, _)) = alloc_noname_spec(s) {
        if let Some((s2, _)) = alloc_spec(s, id) {
            assert(s2.var_map.drop_last() =~= s1.var_map.drop_last());
        }
    }
}

/// A scope opened and closed again inside a scope leaves the bookkeeping
/// inside the outer scope.
pub proof fn lemma_scope_nested(s0: CState, s: CState, t: CState)
    requires
        in_scope(s0, s),
        in_scope(s, t),
    ensures
        pop_spec(t) matches Some(u) && in_scope(s0, u),
{
}

/// Closing a scope gives back the cells in use and the scopes from before
/// it was opened, whatever was taken, freed, or opened and closed inside it;
/// the most cells ever used and the call stack are kept.
pub proof fn lemma_scope_closes(s0: CState, s: CState)
    requires
        in_scope(s0, s),
    ensures
        pop_spec(s) == Some(CState { usage: s0.usage, var_map: s0.var_map, ..s }),
{
}

/// The scopes as values.
pub open spec fn scopes_view(v: Seq<(usize, HashMap<usize, usize>)>) -> Seq<(usize, Map<usize, usize>)> {
    v.map_values(|e: (usize, HashMap<usize, usize>)| (e.0, e.1@))
}

/// The compiler's bookkeeping while it lays out cells.
pub struct CompileContext<'a> {
    pub usage: usize,
    pub max_usage: usize,
    pub callstack: Vec<usize>,
    pub var_map: Vec<(usize, HashMap<usize, usize>)>,
    pub arrays: &'a [usize],
}

impl<'a> CompileContext<'a> {
    /// The bookkeeping as a value.
    pub open spec fn state(&self) -> CState {
        CState {
            usage: self.usage,
            max_usage: self.max_usage,
            callstack: self.callstack@,
            var_map: scopes_view(self.var_map@),
        }
    }

    /// No cell in use, no function expanded, no scope open.
    pub fn new(arrays: &'a [usize]) -> (ctx: CompileContext<'a>)
        ensures
            ctx.state() == (CState {
                usage: 0,
                max_usage: 0,
                callstack: Seq::empty(),
                var_map: Seq::empty(),
            }),
            ctx.arrays@ == arrays@,
    {
        let ctx = CompileContext {
            usage: 0,
            max_usage: 0,
            callstack: Vec::new(),
            var_map: Vec::new(),
            arrays,
        };
        assert(ctx.state().var_map =~= Seq::<(usize, Map<usize, usize>)>::empty());
        ctx
    }

    /// Opens a scope.
    pub fn push(&mut self)
        ensures
            final(self).state() == push_spec(old(self).state()),
            final(self).arrays == old(self).arrays,
    {
        self.var_map.push((self.usage, HashMap::new()));
        assert(self.state().var_map =~= push_spec(old(self).state()).var_map);
    }

    /// Takes the next free cell and names it `id` in the innermost scope.
    pub fn alloc_var(&mut self, id: usize) -> (ptr: usize)
        requires
            alloc_spec(old(self).state(), id) is Some,
        ensures
            alloc_spec(old(self).state(), id) == Some((final(self).state(), ptr)),
            final(self).arrays == old(self).arrays,
    {
        let ptr = self.alloc_noname();
        let (u, mut m) = self.var_map.pop().unwrap();
        m.insert(id, ptr);
        self.var_map.push((u, m));
        assert(self.state().var_map =~= alloc_spec(old(self).state(), id).unwrap().0.var_map);
        ptr
    }

    /// Takes the next free cell.
    pub fn alloc_noname(&mut self) -> (ptr: usize)
        requires
            alloc_noname_spec(old(self).state()) is Some,
        ensures
            alloc_noname_spec(old(self).state()) == Some((final(self).state(), ptr)),
            final(self).arrays == old(self).arrays,
    {
        let ptr = self.usage;
        self.usage += 1;
        self.max_usage = if self.max_usage < self.usage { self.usage } else { self.max_usage };
        ptr
    }

    /// Releases the last taken cell, which must be `ptr`.
    pub fn free(&mut self, ptr: usize) -> (res: Result<(), CompileError>)
        requires
            free_spec(old(self).state(), ptr) is Some,
        ensures
            match free_spec(old(self).state(), ptr).unwrap() {
                Ok(s) => res is Ok && final(self).state() == s,
                Err(e) => res == Err::<(), CompileError>(e) && final(self).state() == old(self).state(),
            },
            final(self).arrays == old(self).arrays,
    {
        if self.usage - 1 != ptr {
            return Err(CompileError::FreeMismatch);
        }
        self.usage -= 1;
        Ok(())
    }

    /// The cell of `id` in the innermost scope that names it.
    pub fn get(&self, id: usize) -> (res: Result<usize, CompileError>)
        ensures
            res == get_spec(self.state(), id),
    {
        let mut i: usize = self.var_map.len();
        assert(self.state().var_map.take(i as int) =~= self.state().var_map);
        while i > 0
            invariant
                i <= self.var_map@.len(),
                lookup(self.state().var_map, id) == lookup(self.state().var_map.take(i as int), id),
            decreases i,
        {
            let ghost vm = self.state().var_map.take(i as int);
            assert(vm.drop_last() =~= self.state().var_map.take(i - 1));
            assert(vm.last() == self.state().var_map[i - 1]);
            if let Some(p) = self.var_map[i - 1].1.get(&id) {
                return Ok(*p);
            }
            i = i - 1;
        }
        Err(CompileError::UndefinedVariable)
    }

    /// Closes the innermost scope and releases its cells.
    pub fn pop(&mut self)
        requires
            pop_spec(old(self).state()) is Some,
        ensures
            pop_spec(old(self).state()) == Some(final(self).state()),
            final(self).arrays == old(self).arrays,
    {
        let (usage, _) = self.var_map.pop().unwrap();
        self.usage = usage;
        assert(self.state().var_map =~= pop_spec(old(self).state()).unwrap().var_map);
    }
}

} // verus!
