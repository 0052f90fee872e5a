//! The ways loading or expanding can fail.
use vstd::prelude::*;

verus! {

/// Why a load or an expansion failed. Each failure aborts the whole operation.
#[derive(Debug, Clone, Copy, PartialEq, Eq, Structural)]
pub enum MacroError {
    /// A mark that a definition needs is missing before the end of the text.
    MalformedDefinition,
    /// A mark that an invocation needs is missing before the end of the text.
    MalformedInvocation,
    /// An invocation names a macro that the table lacks.
    UnknownMacro,
    /// An invocation has not as many arguments as its macro has parameters.
    ArgumentCountMismatch,
}

impl MacroError {
    /// A short description of the failure, for people.
    pub fn message(&self) -> (r: &'static str)
        ensures
            *self == MacroError::MalformedDefinition ==> r@ == "malformed macro definition"@,
            *self == MacroError::MalformedInvocation ==> r@ == "malformed macro invocation"@,
            *self == MacroError::UnknownMacro ==> r@ == "unknown macro"@,
            *self == MacroError::ArgumentCountMismatch ==> r@
                == "wrong number of macro arguments"@,
    {
        match self {
            MacroError::MalformedDefinition => "malformed macro definition",
            MacroError::MalformedInvocation => "malformed macro invocation",
            MacroError::UnknownMacro => "unknown macro",
            MacroError::ArgumentCountMismatch => "wrong number of macro arguments",
        }
    }
}

} // verus!
