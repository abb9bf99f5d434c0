//! The error taxonomy of a compile. Every error aborts the whole compile;
//! nothing is downgraded to a warning.

use vstd::prelude::*;

verus! {

/// The abstract form of a [`CompileError`], over character sequences, used
/// throughout the contracts.
pub ghost enum CompileErrorV {
    /// A malformed source line, with its origin and the token descriptions
    /// the parser would have accepted.
    Parse { file: Seq<char>, line: int, column: int, expected: Seq<Seq<char>> },
    /// The whitelist configuration names a mnemonic that is not in the
    /// opcode table; detected before any source is processed.
    UnknownWhitelistMnemonic { name: Seq<char> },
    /// An opcode-bearing instruction whose canonical mnemonic is absent from
    /// an active whitelist.
    DisallowedInstruction { mnemonic: Seq<char> },
    /// An include that revisits a file already on the active inclusion stack.
    RecursiveInclusion { path: Seq<char> },
    /// An include or entry path that does not name a readable regular file.
    NotAFile { path: Seq<char> },
    /// A relocation whose effective label name was never defined.
    UndefinedLabel { name: Seq<char> },
    /// A write or cursor move beyond the 16-bit address space.
    Overflow,
}

/// A fatal compile error. The first one encountered aborts the compile; no
/// output artifact is produced.
#[derive(Debug)]
pub enum CompileError {
    ParseError { file: String, line: usize, column: usize, expected: Vec<String> },
    UnknownWhitelistMnemonic { name: String },
    DisallowedInstruction { mnemonic: String },
    RecursiveInclusion { path: String },
    NotAFile { path: String },
    UndefinedLabel { name: String },
    OverflowError,
}

impl View for CompileError {
    type V = CompileErrorV;

    open spec fn view(&self) -> CompileErrorV {
        match self {
            CompileError::ParseError { file, line, column, expected } => CompileErrorV::Parse {
                file: file@,
                line: *line as int,
                column: *column as int,
                expected: expected.deep_view(),
            },
            CompileError::UnknownWhitelistMnemonic { name } =>
                CompileErrorV::UnknownWhitelistMnemonic { name: name@ },
            CompileError::DisallowedInstruction { mnemonic } =>
                CompileErrorV::DisallowedInstruction { mnemonic: mnemonic@ },
            CompileError::RecursiveInclusion { path } =>
                CompileErrorV::RecursiveInclusion { path: path@ },
            CompileError::NotAFile { path } => CompileErrorV::NotAFile { path: path@ },
            CompileError::UndefinedLabel { name } => CompileErrorV::UndefinedLabel { name: name@ },
            CompileError::OverflowError => CompileErrorV::Overflow,
        }
    }
}

} // verus!
