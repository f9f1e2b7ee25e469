//! A converter core for trees of exported note documents: it discovers every
//! document and media file, indexes documents by their relative key, derives
//! destination paths deterministically, binds media directories to the
//! documents that own them, and rewrites every document body, resolving the
//! embedded reference dialects against the index and failing the whole run on
//! the first reference that cannot be resolved.

use vstd::prelude::*;

pub mod craft_files;
pub mod errors;
pub mod paths;
pub mod rewrite;
pub mod text;
pub mod zola_files;

verus! {

} // verus!
