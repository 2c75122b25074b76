//! Session-based storage for the file list selected by a renaming session.

use vstd::prelude::*;

verus! {

/// Holds the files selected for the current renaming session, so that
/// previews can be computed without re-transmitting every path.
pub struct FileState {
    renamer_files: Vec<String>,
}

impl FileState {
    /// Creates a new empty `FileState`.
    pub fn new() -> (r: Self)
        ensures
            r@ === Seq::<Seq<char>>::empty(),
    {
        FileState { renamer_files: Vec::new() }
    }

    /// The stored paths, as sequences of characters.
    pub closed spec fn view(&self) -> Seq<Seq<char>> {
        self.renamer_files.deep_view()
    }

    /// Replaces the stored file list with `files`.
    pub fn set_files(&mut self, files: Vec<String>)
        ensures
            final(self)@ === files.deep_view(),
    {
        self.renamer_files = files;
    }

    /// Returns a copy of the current file list.
    pub fn get_files(&self) -> (r: Vec<String>)
        ensures
            r.deep_view() === self@,
    {
        self.renamer_files.clone()
    }

    /// Removes every stored file.
    pub fn clear(&mut self)
        ensures
            final(self)@ === Seq::<Seq<char>>::empty(),
    {
        self.renamer_files.clear();
    }

    /// Returns the number of stored files.
    pub fn len(&self) -> (r: usize)
        ensures
            r == self@.len(),
    {
        self.renamer_files.len()
    }
}

impl Default for FileState {
    fn default() -> (r: Self)
        ensures
            r@ === Seq::<Seq<char>>::empty(),
    {
        FileState::new()
    }
}

} // verus!
