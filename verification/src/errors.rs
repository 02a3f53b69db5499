//! Error taxonomy of the analysis engine.

use vstd::prelude::*;

verus! {

/// Every failure the engine reports to a front end.  Coordinate and
/// discovery errors are returned without logging; database failures are
/// surfaced as typed errors.
#[derive(Debug, Clone, Copy, PartialEq, Eq, Structural)]
pub enum EngineError {
    /// Line or column is 0 (coordinates are 1-based).
    InvalidCoordinates,
    /// Coordinates lie beyond the file.
    OutOfBounds,
    /// Path unknown to the VFS after a drain.
    FileNotInWorkspace,
    /// No ancestor of the given path holds the manifest file.
    NoManifest,
    /// A second load attempt with a different workspace root.
    WorkspaceAlreadyLoaded,
    /// The database refused to provide a line index for a known file.
    LineIndexUnavailable,
    /// The database returned an error.
    DbQueryFailure,
    /// Semantic rejection of a rename by the database.
    RenameFailed,
    /// An edit range does not map to a valid offset.
    InvalidEditPosition,
    /// Read or write failure while applying edits.
    FileIo,
    /// Requested inlay-hint line range lies outside the file.
    RangeOutOfBounds,
    /// Find-all-references produced zero records.
    NoReferences,
}

impl EngineError {
    /// Human-readable message for front ends, fixed per kind.
    pub fn message(&self) -> (r: &'static str)
        ensures
            r@.len() > 0,
            (match self {
                EngineError::InvalidCoordinates => r@ == "line and column must be >= 1"@,
                EngineError::OutOfBounds => r@ == "coordinates out of bounds for the file"@,
                EngineError::FileNotInWorkspace => r@ == "file is not part of the loaded workspace"@,
                EngineError::NoManifest => r@ == "no manifest found in any ancestor directory"@,
                EngineError::WorkspaceAlreadyLoaded => r@
                    == "a different workspace is already loaded"@,
                EngineError::LineIndexUnavailable => r@
                    == "no line index available for the file"@,
                EngineError::DbQueryFailure => r@ == "the semantic database reported an error"@,
                EngineError::RenameFailed => r@ == "symbol cannot be renamed at this position"@,
                EngineError::InvalidEditPosition => r@
                    == "edit position does not exist in the file"@,
                EngineError::FileIo => r@ == "failed to read or write a file"@,
                EngineError::RangeOutOfBounds => r@
                    == "line range lies outside of the file limits"@,
                EngineError::NoReferences => r@ == "no references or declarations found"@,
            }),
    {
        let m: &'static str = match self {
            EngineError::InvalidCoordinates => "line and column must be >= 1",
            EngineError::OutOfBounds => "coordinates out of bounds for the file",
            EngineError::FileNotInWorkspace => "file is not part of the loaded workspace",
            EngineError::NoManifest => "no manifest found in any ancestor directory",
            EngineError::WorkspaceAlreadyLoaded => "a different workspace is already loaded",
            EngineError::LineIndexUnavailable => "no line index available for the file",
            EngineError::DbQueryFailure => "the semantic database reported an error",
            EngineError::RenameFailed => "symbol cannot be renamed at this position",
            EngineError::InvalidEditPosition => "edit position does not exist in the file",
            EngineError::FileIo => "failed to read or write a file",
            EngineError::RangeOutOfBounds => "line range lies outside of the file limits",
            EngineError::NoReferences => "no references or declarations found",
        };
        proof {
            reveal_strlit("line and column must be >= 1");
            reveal_strlit("coordinates out of bounds for the file");
            reveal_strlit("file is not part of the loaded workspace");
            reveal_strlit("no manifest found in any ancestor directory");
            reveal_strlit("a different workspace is already loaded");
            reveal_strlit("no line index available for the file");
            reveal_strlit("the semantic database reported an error");
            reveal_strlit("symbol cannot be renamed at this position");
            reveal_strlit("edit position does not exist in the file");
            reveal_strlit("failed to read or write a file");
            reveal_strlit("line range lies outside of the file limits");
            reveal_strlit("no references or declarations found");
        }
        m
    }
}

} // verus!
