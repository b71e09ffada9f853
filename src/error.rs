use vstd::prelude::*;

verus! {

/// What can go wrong in the engine.
#[derive(Debug)]
pub enum EngineError {
    /// The archive could not be opened or read; the tool's message is attached.
    ArchiveUnreadable(String),
    /// No archive entry is the requested path or lies under it.
    SubtreeNotFound,
    /// The archive tool failed while extracting; its message is attached.
    ExtractionFailed(String),
    /// A file's size or content could not be read; the message is attached.
    FingerprintUnavailable(String),
    /// An export of the same layer is already under way.
    ExportInProgress,
    /// The file is too large to show, or does not look like text.
    BinaryContentRejected,
    /// The layer identifier is malformed, out of range or not exported.
    InvalidLayerReference,
}

} // verus!
