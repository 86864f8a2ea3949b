use vstd::prelude::*;

verus! {

/// The ways in which executing a program can fail. Every failure is final:
/// the machine is left exactly as it was before the offending instruction.
#[derive(Clone, Copy, Debug, PartialEq, Eq, Structural)]
pub enum BrainfuckError {
    /// `>` on the last cell or `<` on the first one.
    TapeBoundsError,
    /// A bracket scan reached the end or the start of the program before the
    /// nesting depth came back to zero.
    UnmatchedBracketError,
    /// `,` was executed with no input byte left.
    InputExhausted,
}

} // verus!
