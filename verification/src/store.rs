use vstd::prelude::*;

verus! {

/// The state of one atomically-replaced store file: what its canonical path
/// holds and what its temporary sibling holds, each absent until written.
pub ghost struct FileState {
    /// Content of the canonical path.
    pub canonical: Option<Seq<u8>>,
    /// Content of the temporary sibling.
    pub temp: Option<Seq<u8>>,
}

/// Writing the temporary sibling: the canonical path is untouched.
pub open spec fn step_write_temp(s: FileState, bytes: Seq<u8>) -> FileState {
    FileState { canonical: s.canonical, temp: Some(bytes) }
}

/// Renaming the temporary sibling over the canonical path: the canonical
/// content becomes the whole written value at once.
pub open spec fn step_commit(s: FileState) -> FileState {
    FileState { canonical: s.temp, temp: None }
}

/// Law: a save interrupted after the temporary write but before the rename
/// leaves the canonical content exactly as it was — the prior checkpoint
/// stays readable, whole.
pub proof fn lemma_interrupted_save_preserves_canonical(s: FileState, bytes: Seq<u8>)
    ensures
        step_write_temp(s, bytes).canonical == s.canonical,
{
}

/// Law: a completed save installs exactly the written bytes as the canonical
/// content; no intermediate step ever exposes a partial value there.
pub proof fn lemma_completed_save_installs_whole_value(s: FileState, bytes: Seq<u8>)
    ensures
        step_commit(step_write_temp(s, bytes)).canonical == Some(bytes),
{
}

/// An in-memory model of the write-temp-then-rename protocol the store uses
/// for its checkpoint documents. Driver code realizes each step with real
/// files; the contracts here are the protocol's guarantee, and a run cut
/// short between the two steps is modeled by never calling `commit`.
pub struct AtomicFileModel {
    canonical: Option<Vec<u8>>,
    temp: Option<Vec<u8>>,
}

impl AtomicFileModel {
    /// The modeled file pair.
    pub closed spec fn model(&self) -> FileState {
        FileState {
            canonical: match self.canonical {
                Some(v) => Some(v@),
                None => None,
            },
            temp: match self.temp {
                Some(v) => Some(v@),
                None => None,
            },
        }
    }

    /// A path where nothing has been written yet.
    pub fn new() -> (r: Self)
        ensures
            r.model().canonical is None,
            r.model().temp is None,
    {
        AtomicFileModel { canonical: None, temp: None }
    }

    /// Write the whole new content to the temporary sibling.
    pub fn write_temp(&mut self, bytes: Vec<u8>)
        ensures
            final(self).model() == step_write_temp(old(self).model(), bytes@),
    {
        self.temp = Some(bytes);
    }

    /// Atomically rename the temporary sibling over the canonical path.
    pub fn commit(&mut self)
        requires
            old(self).model().temp is Some,
        ensures
            final(self).model() == step_commit(old(self).model()),
    {
        let mut taken: Option<Vec<u8>> = None;
        core::mem::swap(&mut taken, &mut self.temp);
        self.canonical = taken;
    }

    /// Read the canonical content.
    pub fn read(&self) -> (r: Option<&Vec<u8>>)
        ensures
            r matches Some(v) ==> self.model().canonical == Some(v@),
            r is None <==> self.model().canonical is None,
    {
        match &self.canonical {
            Some(v) => Some(v),
            None => None,
        }
    }
}

} // verus!
