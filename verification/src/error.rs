//! The failures this core can report. Parse failures on a persisted record
//! are fatal configuration errors; acquisition failures name the package and
//! the stage that failed, so a retry starts from a consistent prior state.

use vstd::prelude::*;

verus! {

/// The stage of package acquisition at which a failure happened.
#[derive(Debug, Clone, Copy, PartialEq, Eq)]
pub enum Stage {
    /// The archive download itself failed.
    Network,
    /// The archive's cryptographic signature did not check out.
    Signature,
    /// Unpacking the verified archive failed.
    Extraction,
}

/// A fatal failure of the reconciliation cycle.
#[derive(Debug, Clone, PartialEq, Eq)]
pub enum Error {
    /// A persisted record existed but was malformed; `line` is the
    /// first offending line, counted from zero.
    ParseFailed { line: usize },
    /// One package of the resolved manifest could not be acquired.
    PackageFailed { package: String, version: String, stage: Stage },
}

} // verus!
