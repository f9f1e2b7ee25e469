//! The destination side: the output directory and the placement of each
//! finished document under it. Writing the files themselves is the output
//! collaborator's work and stays outside the library.

use vstd::prelude::*;

use crate::paths::{create_input_path, strip_trailing_slashes};

verus! {

pub struct ZolaFiles {
    pub output_dir: String,
}

impl ZolaFiles {
    pub fn new(output_dir: String) -> (r: ZolaFiles)
        ensures
            r.output_dir@ == output_dir@,
    {
        ZolaFiles { output_dir }
    }

    /// Where a destination-relative path lands under the output directory;
    /// trailing separators on the output directory are ignored.
    pub fn create_output_path(&self, file_path: &String) -> (r: String)
        ensures
            r@ == strip_trailing_slashes(self.output_dir@) + seq!['/'] + file_path@,
    {
        create_input_path(&self.output_dir, file_path)
    }
}

} // verus!
