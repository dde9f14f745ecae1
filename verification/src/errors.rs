//! The error taxonomy of the interpreter: lexical, parse, import, label and
//! runtime failures, each carrying the source location where it arose.

use vstd::prelude::*;
use crate::lexer::Location;

verus! {

/// A malformed character literal: a `.` with no character after it.
#[derive(Debug)]
pub struct LexError {
    pub loc: Location,
}

/// What the statement parser expected when it stopped.
#[derive(Clone, Copy, PartialEq, Eq, Structural, Debug)]
pub enum ParseErrorKind {
    /// The statement began with something that is neither a keyword nor a label.
    ExpectedKeywordOrLabel,
    /// After a label, the statement went on with something that is no keyword.
    ExpectedKeyword,
    /// The keyword needs more operands than the stream still holds.
    MissingOperand,
    /// A readable operand (number, char, register or memory) was expected.
    ExpectedValue,
    /// A writable operand (register or memory) was expected.
    ExpectedPlace,
    /// A label name (bare identifier) was expected.
    ExpectedLabelName,
    /// A memory operand was expected.
    ExpectedMemory,
    /// A register token does not name one of the machine's registers.
    UnknownRegister,
    /// A direct memory address is not a decimal number below the memory size.
    BadAddress,
    /// A keyword token holds a word that is no keyword of the language.
    UnknownKeyword,
}

/// A statement that does not follow the operand table, with the location of
/// the offending token.
#[derive(Debug)]
pub struct ParseError {
    pub loc: Location,
    pub kind: ParseErrorKind,
}

/// Why a load failed.
#[derive(Debug)]
pub enum LoadError {
    Lex(LexError),
    Parse(ParseError),
    /// An imported file could not be read; `loc` is the `@` statement.
    ImportIo { loc: Location, path: Vec<char> },
    /// An import would re-enter a file that is still being expanded.
    CircularImport { loc: Location, path: Vec<char> },
    /// The same label is defined twice; both definition sites are cited.
    DuplicateLabel { name: Vec<char>, first: Location, second: Location },
    /// A control transfer names a label that no statement defines.
    UndefinedLabel { name: Vec<char>, loc: Location },
}

/// Why execution stopped. Every runtime error halts the machine.
#[derive(Clone, Copy, PartialEq, Eq, Structural, Debug)]
pub enum RuntimeError {
    /// `run` with a full return stack.
    StackOverflow,
    /// `ret` with an empty return stack.
    StackUnderflow,
    /// A register-indirect access beyond the end of memory.
    MemoryBounds { addr: usize },
}

} // verus!
