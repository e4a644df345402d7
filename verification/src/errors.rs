//! The error taxonomy of the pipeline.
//!
//! Only two conditions abort a run before anything is sent to the store:
//! a structurally invalid row under strict validation, and a computed edge
//! label that fails the allow-list check. Unresolved entity references are
//! non-fatal (the edge is dropped and counted), degenerate coordinate bounds
//! are handled by projecting onto the canvas centre, and a failed chunk
//! commit is reported by the loader, not by this type.

use vstd::prelude::*;

verus! {

/// An error that aborts a run before any write operation is sent.
#[derive(Debug, Clone, PartialEq)]
pub enum IngestError {
    /// A row failed structural validation (a required numeric field is
    /// missing or out of range) and the builder was run in strict mode.
    /// `row` is the index of the first such row.
    RowParse { row: usize },
    /// A computed relationship label failed the allow-list check
    /// (letters, digits and underscores only). The offending label is kept.
    InvalidLabel { label: String },
}

impl IngestError {
    /// The message `describe` returns for each variant.
    pub open spec fn spec_describe(self) -> Seq<char> {
        match self {
            IngestError::RowParse { .. } => "a row failed structural validation in strict mode"@,
            IngestError::InvalidLabel { .. } => "a relationship label failed the allow-list check"@,
        }
    }

    /// A short human-readable account of the error.
    pub fn describe(&self) -> (r: String)
        ensures
            r@ == self.spec_describe(),
            r@.len() > 0,
    {
        let msg: &str = match self {
            IngestError::RowParse { .. } => "a row failed structural validation in strict mode",
            IngestError::InvalidLabel { .. } => "a relationship label failed the allow-list check",
        };
        proof {
            reveal_strlit("a row failed structural validation in strict mode");
            reveal_strlit("a relationship label failed the allow-list check");
        }
        msg.to_owned()
    }
}

} // verus!
