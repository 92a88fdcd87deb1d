use std::collections::HashMap;

use vstd::prelude::*;

use crate::ir::ir::{funcs_deep, FuncView, IRFunc};

verus! {

/// Why the front end refused a source program.
#[derive(Debug, Clone, Copy, PartialEq, Eq, Structural)]
pub enum IRError {
    /// A literal, operator or callee form the front end does not read.
    Unsupported,
    /// An integer literal that does not fit in a cell value.
    IntOutOfRange,
    /// `input` called with arguments.
    InputArguments,
    /// An expression form the front end does not lower yet.
    Unimplemented,
    /// A declared variable whose binding is not a plain name.
    UnsupportedVariableDeclaration,
    /// A compound assignment other than `+=`, `-=`, `*=`, `/=`.
    UnsupportedAssignment,
    /// An assignment to something other than a plain name.
    UnsupportedAssignmentTarget,
    /// A call statement whose callee is not a plain name.
    UnsupportedCallee,
    /// An increment or decrement of something other than a plain name.
    UnsupportedUpdateTarget,
    /// A statement form the front end does not lower.
    UnsupportedStatement,
    /// A rest parameter.
    SpreadArgument,
    /// A parameter with a default value.
    ArgumentInit,
    /// A parameter whose binding is not a plain name.
    UnsupportedArgument,
    /// A function declared anywhere but at the top level.
    UnsupportedFunctionDeclaration,
    /// A declaration other than `let`, `const` or a function.
    UnsupportedDeclaration,
    /// A declaration other than a function at the top level of a program.
    UnsupportedTopDeclaration,
    /// A declaration in the body of a function.
    DeclarationInFunction,
}

impl IRError {
    /// The text of the error.
    pub open spec fn message_spec(self) -> Seq<char> {
        match self {
            IRError::Unsupported => "unsupport"@,
            IRError::IntOutOfRange => "out of range integral type conversion attempted"@,
            IRError::InputArguments => "Input function argument size mismatch"@,
            IRError::Unimplemented => "unimp"@,
            IRError::UnsupportedVariableDeclaration => "Unsupported variable declaration detected"@,
            IRError::UnsupportedAssignment => "Unsupported assignment detected"@,
            IRError::UnsupportedAssignmentTarget => "Unsupported assignment target detected"@,
            IRError::UnsupportedCallee => "Unsupported callee detected"@,
            IRError::UnsupportedUpdateTarget => "Unsupported update target detected"@,
            IRError::UnsupportedStatement => "unimp | unsupport"@,
            IRError::SpreadArgument => "Unsupported spread argument detected"@,
            IRError::ArgumentInit => "Unimplemented argument init detected"@,
            IRError::UnsupportedArgument => "Unsupported argument detected"@,
            IRError::UnsupportedFunctionDeclaration => "Unsupported function declaration detected"@,
            IRError::UnsupportedDeclaration => "Unsupported statement detected"@,
            IRError::UnsupportedTopDeclaration => "Unsupported declaration detected"@,
            IRError::DeclarationInFunction => "Unsupported declaration detected in function"@,
        }
    }

    /// The text of the error.
    pub fn message(&self) -> (r: &'static str)
        ensures
            r@ == self.message_spec(),
    {
        match self {
            IRError::Unsupported => "unsupport",
            IRError::IntOutOfRange => "out of range integral type conversion attempted",
            IRError::InputArguments => "Input function argument size mismatch",
            IRError::Unimplemented => "unimp",
            IRError::UnsupportedVariableDeclaration => "Unsupported variable declaration detected",
            IRError::UnsupportedAssignment => "Unsupported assignment detected",
            IRError::UnsupportedAssignmentTarget => "Unsupported assignment target detected",
            IRError::UnsupportedCallee => "Unsupported callee detected",
            IRError::UnsupportedUpdateTarget => "Unsupported update target detected",
            IRError::UnsupportedStatement => "unimp | unsupport",
            IRError::SpreadArgument => "Unsupported spread argument detected",
            IRError::ArgumentInit => "Unimplemented argument init detected",
            IRError::UnsupportedArgument => "Unsupported argument detected",
            IRError::UnsupportedFunctionDeclaration => "Unsupported function declaration detected",
            IRError::UnsupportedDeclaration => "Unsupported statement detected",
            IRError::UnsupportedTopDeclaration => "Unsupported declaration detected",
            IRError::DeclarationInFunction => "Unsupported declaration detected in function",
        }
    }
}

/// What the front end has gathered so far: the names bound to array
/// literals, and the functions declared, when declarations are allowed here.
pub struct PState {
    pub arrays: Seq<usize>,
    pub funcs: Option<Map<usize, FuncView>>,
}

/// The front end's context: the symbol of the name `input`, if the source
/// interned it; the function table, present only where functions may be
/// declared; and the names bound to array literals.
pub struct ParserContext {
    pub input: Option<usize>,
    pub funcs: Option<HashMap<usize, IRFunc>>,
    pub arrays: Vec<usize>,
}

impl ParserContext {
    /// The gathered state as a value.
    pub open spec fn state(&self) -> PState {
        PState {
            arrays: self.arrays@,
            funcs: match self.funcs {
                Some(m) => Some(funcs_deep(m@)),
                None => None,
            },
        }
    }

    /// A context with nothing gathered yet and an empty function table,
    /// so that `parse_statement_item` may declare functions in it.
    pub fn new(input: Option<usize>) -> (ctx: ParserContext)
        ensures
            ctx.input == input,
            ctx.state() == (PState { arrays: Seq::empty(), funcs: Some(Map::empty()) }),
    {
        let ctx = ParserContext { input, funcs: Some(HashMap::new()), arrays: Vec::new() };
        proof {
            assert(funcs_deep(ctx.funcs.unwrap()@) =~= Map::<usize, FuncView>::empty());
        }
        ctx
    }
}

} // verus!
