//! The ways a call to `parse` can fail.

use vstd::prelude::*;

verus! {

/// The grammar construct that was being completed when parsing failed.
#[derive(Debug, Clone, Copy, PartialEq, Eq, Structural)]
pub enum Construct {
    /// A dice count or a bare integer operand was expected.
    DiceCount,
    /// The size following a `d` indicator was expected.
    DiceSize,
    /// The direction (`l` or `h`) closing a remove modifier was expected.
    RemoveDirection,
    /// An add or subtract operator was being completed. Reached only on token
    /// sequences the lexer never produces (an operator other than `+`/`-`).
    Operator,
}

/// A descriptive error value: every failure of `parse` is one of these, and
/// none is ever a panic.
#[derive(Debug, Clone, Copy, PartialEq, Eq, Structural)]
pub enum ParseFailure {
    /// The lexer met a character it does not recognize, at the given 0-based
    /// character index. Lexing stops at the first such character.
    LexError { character: char, index: usize },
    /// Input ended where the named construct still required a token. `index`
    /// is the character index of the token that opened the construct, or the
    /// token position where nothing had been consumed yet.
    UnexpectedEndOfInput { construct: Construct, index: usize },
    /// A token of the wrong kind stood where the named construct required a
    /// specific one. `index` is the character index carried by the token that
    /// introduced the construct.
    UnexpectedToken { construct: Construct, index: usize },
    /// A complete expression was parsed but tokens remain; `position` is the
    /// token position of the first leftover token.
    TrailingInput { position: usize },
}

} // verus!
