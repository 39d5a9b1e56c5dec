use vstd::prelude::*;
use crate::types::PipelineError;

verus! {

/// Knows where the store keeps its artifacts, relative to one root directory.
/// All reading and writing of those paths is done by driver code outside the
/// library; this type owns the path arithmetic.
pub struct FileManager {
    root_dir: String,
}

impl FileManager {
    /// The store's root directory.
    pub closed spec fn root(&self) -> Seq<char> {
        self.root_dir@
    }

    /// A manager rooted at `root_dir`. The caller is responsible for creating
    /// the `images` directory under the root before blobs are written.
    pub fn new(root_dir: &str) -> (r: Result<Self, PipelineError>)
        ensures
            r matches Ok(fm) && fm.root() == root_dir@,
    {
        Ok(FileManager { root_dir: root_dir.to_owned() })
    }

    /// The path a blob named `filename` is stored under.
    pub fn get_image_path(&self, filename: &str) -> (r: String)
        ensures
            r@ == self.root() + "/images/"@ + filename@,
    {
        let mut r = self.root_dir.clone();
        r.append("/images/");
        r.append(filename);
        r
    }
}

} // verus!
