use vstd::prelude::*;

verus! {

/// Why a script was rejected or aborted.
#[derive(Clone, Copy, Debug, PartialEq, Eq, Structural)]
pub enum ScriptError {
    /// Malformed numeral, unterminated string literal or unrecognised
    /// character, at the given character position.
    Lexical(usize),
    /// Unexpected token, at the given token position.
    Syntax(usize),
    /// Redeclaration within one frame, or use of an undeclared name.
    Name,
    /// Operand tags that do not fit the operator, an unprintable value,
    /// or a condition that is not a boolean.
    Type,
    /// Integer division or remainder by zero, or integer overflow.
    Arithmetic,
    /// A node that cannot be evaluated where it stands.
    Unsupported,
    /// The evaluation ran out of loop steps.
    StepLimit,
    /// A float reply of the wrong kind was handed back.
    BadReply,
}

} // verus!
