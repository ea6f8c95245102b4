//! Processing errors.

use vstd::prelude::*;

use crate::error::ReadError;
use crate::wasm::ValType;

verus! {

/// Location of a reference inside a function signature: an argument or a
/// result position.
#[derive(Debug, Clone, Copy, PartialEq, Eq, Structural)]
pub enum Location {
    /// Argument with the specified zero-based index.
    Arg(usize),
    /// Result with the specified zero-based index.
    ReturnType(usize),
}

/// Errors that can occur when processing a Wasm module.
#[derive(Debug)]
pub enum Error {
    /// Error reading the custom section with function declarations.
    Read(ReadError),
    /// The module itself could not be parsed or serialized; the enclosed text
    /// describes the cause. Produced by embedders that translate module bytes
    /// into the model, never by the processor itself.
    Wasm(String),
    /// Unexpected kind of an import (expected a function).
    UnexpectedImportType {
        /// Name of the module the import comes from.
        module: String,
        /// Name of the imported function.
        name: String,
    },
    /// Missing exported function with the enclosed name.
    NoExport(String),
    /// Unexpected kind of an export (expected a function).
    UnexpectedExportType(String),
    /// An imported or exported function's arity differs from its catalog entry.
    UnexpectedArity {
        /// Name of the import's module; `None` for exported functions.
        module: Option<String>,
        /// Name of the function.
        name: String,
        /// The arity the catalog entry records.
        expected_arity: usize,
        /// The arity of the function's type in the module.
        real_arity: usize,
    },
    /// A position marked as a reference does not hold the integer surrogate
    /// type.
    UnexpectedType {
        /// Name of the import's module; `None` for exported functions.
        module: Option<String>,
        /// Name of the function.
        name: String,
        /// The marked position.
        location: Location,
        /// The type observed there (the expected type is always `i32`).
        real_type: ValType,
    },
    /// Incorrectly placed guard call. This is caused by rewriting the module
    /// with external tools before running this processor.
    IncorrectGuard {
        /// Name of the function with the misplaced guard, if the module names it.
        function_name: Option<String>,
        /// Bytecode offset of the offending guard call, if known.
        code_offset: Option<u32>,
    },
    /// A call producing a reference result inside an unguarded function. Such
    /// calls must sit inside guarded functions for locals retyping to be
    /// sound; like [`Error::IncorrectGuard`], this is caused by external
    /// rewriting tools.
    UnexpectedCall {
        /// Name of the function holding the call, if the module names it.
        function_name: Option<String>,
        /// Bytecode offset of the offending call, if known.
        code_offset: Option<u32>,
    },
}

} // verus!
