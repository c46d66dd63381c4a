use vstd::prelude::*;

verus! {

/// The failures that the toolkit reports to its callers.
#[derive(Debug, Clone, Copy, PartialEq, Eq, Structural)]
pub enum ToolError {
    NotFound,
    PermissionDenied,
    ProcessGone,
    AttachError,
    WaitError,
    DetachError,
    WriteError,
    ParseError,
    IoError,
}

} // verus!
