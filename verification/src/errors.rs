//! The error taxonomy of a conversion run. Every error is fatal to the whole
//! run and carries the offending path and, where one exists, the exact text
//! that was matched.

use vstd::prelude::*;

verus! {

#[derive(Debug, Clone, PartialEq, Eq)]
pub enum ConvertError {
    /// A path handed to the walker does not lie under the input directory.
    NotUnderInputDir { path: String, input_dir: String },
    /// A file path carries no extension, so it cannot be classified.
    MissingExtension { path: String },
    /// A path ends in a separator and so names no file.
    MissingFileName { path: String },
    /// A media directory whose name resolves to no document in the index.
    OrphanMediaDir { dir: String },
    /// A loose asset file whose owning document is not in the index.
    OrphanAssetFile { file: String },
    /// A document body links to a private block of the source tool.
    CraftBlockLink { file: String, link: String },
    /// A double-bracket reference whose key is absent from the index.
    UnresolvedWikiLink { file: String, reference: String },
    /// A calendar pseudo-link whose date is not a real calendar date.
    InvalidDayDate { file: String, link: String },
}

} // verus!
