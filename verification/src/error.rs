//! The ways in which a tool call can fail.
use vstd::prelude::*;

verus! {

/// Why a tool call failed.
#[derive(Debug, PartialEq, Eq)]
pub enum LeanToolError {
    /// A request to the language server failed.
    LspError { operation: String, message: String },
    /// The line is not one of the file's.
    LineOutOfRange { line: u32, total: usize },
    /// The column is not one of the line's.
    ColumnOutOfRange { column: u32, length: usize },
    /// The file declares nothing of that name.
    DeclarationNotFound(String),
    /// The symbol does not occur in the file.
    SymbolNotFound(String),
    /// The symbol has no declaration that the language server knows.
    NoDeclaration(String),
    /// Nothing is known of what stands at the position.
    NoHoverInfo { line: u32, column: u32 },
    /// No goal is open at the position.
    NoGoals { line: u32, column: u32 },
    /// The axioms of a theorem could not be established.
    AxiomCheckFailed(String),
    /// The path does not lead to a readable file.
    InvalidPath(String),
    /// The work took too long.
    LspTimeout(String),
    /// Anything else.
    Other(String),
}

/// What a [`LeanToolError`] says.
pub enum ErrorView {
    LspError { operation: Seq<char>, message: Seq<char> },
    LineOutOfRange { line: nat, total: nat },
    ColumnOutOfRange { column: nat, length: nat },
    DeclarationNotFound(Seq<char>),
    SymbolNotFound(Seq<char>),
    NoDeclaration(Seq<char>),
    NoHoverInfo { line: nat, column: nat },
    NoGoals { line: nat, column: nat },
    AxiomCheckFailed(Seq<char>),
    InvalidPath(Seq<char>),
    LspTimeout(Seq<char>),
    Other(Seq<char>),
}

impl View for LeanToolError {
    type V = ErrorView;

    open spec fn view(&self) -> ErrorView {
        match *self {
            LeanToolError::LspError { operation, message } => ErrorView::LspError {
                operation: operation@,
                message: message@,
            },
            LeanToolError::LineOutOfRange { line, total } => ErrorView::LineOutOfRange {
                line: line as nat,
                total: total as nat,
            },
            LeanToolError::ColumnOutOfRange { column, length } => ErrorView::ColumnOutOfRange {
                column: column as nat,
                length: length as nat,
            },
            LeanToolError::DeclarationNotFound(s) => ErrorView::DeclarationNotFound(s@),
            LeanToolError::SymbolNotFound(s) => ErrorView::SymbolNotFound(s@),
            LeanToolError::NoDeclaration(s) => ErrorView::NoDeclaration(s@),
            LeanToolError::NoHoverInfo { line, column } => ErrorView::NoHoverInfo {
                line: line as nat,
                column: column as nat,
            },
            LeanToolError::NoGoals { line, column } => ErrorView::NoGoals {
                line: line as nat,
                column: column as nat,
            },
            LeanToolError::AxiomCheckFailed(s) => ErrorView::AxiomCheckFailed(s@),
            LeanToolError::InvalidPath(s) => ErrorView::InvalidPath(s@),
            LeanToolError::LspTimeout(s) => ErrorView::LspTimeout(s@),
            LeanToolError::Other(s) => ErrorView::Other(s@),
        }
    }
}

/// What a result says, its value taken by its view.
pub open spec fn result_view<T: View>(r: Result<T, LeanToolError>) -> Result<T::V, ErrorView> {
    match r {
        Ok(v) => Ok(v@),
        Err(e) => Err(e@),
    }
}

} // verus!
