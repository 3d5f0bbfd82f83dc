//! The paths that a test creates and that are to be removed after it.
use vstd::prelude::*;

verus! {

/// The files and directories to remove after a test, in the order they
/// were added: files first, then directories.
pub struct TestCleanup {
    files: Vec<String>,
    dirs: Vec<String>,
}

impl TestCleanup {
    /// The files to remove.
    pub closed spec fn file_paths(&self) -> Seq<Seq<char>> {
        self.files@.map_values(|p: String| p@)
    }

    /// The directories to remove.
    pub closed spec fn dir_paths(&self) -> Seq<Seq<char>> {
        self.dirs@.map_values(|p: String| p@)
    }

    /// Nothing to remove yet.
    pub fn new() -> (r: Self)
        ensures
            r.file_paths() == Seq::<Seq<char>>::empty(),
            r.dir_paths() == Seq::<Seq<char>>::empty(),
    {
        let r = Self { files: Vec::new(), dirs: Vec::new() };
        assert(r.file_paths() =~= Seq::<Seq<char>>::empty());
        assert(r.dir_paths() =~= Seq::<Seq<char>>::empty());
        r
    }

    /// Adds a file to remove.
    pub fn add_file(&mut self, path: String)
        ensures
            final(self).file_paths() == old(self).file_paths().push(path@),
            final(self).dir_paths() == old(self).dir_paths(),
    {
        let ghost before = self.files@;
        self.files.push(path);
        proof {
            assert(self.files@.map_values(|p: String| p@) =~= before.map_values(|p: String| p@).push(
                self.files@.last()@,
            ));
        }
    }

    /// Adds a directory to remove.
    pub fn add_dir(&mut self, path: String)
        ensures
            final(self).dir_paths() == old(self).dir_paths().push(path@),
            final(self).file_paths() == old(self).file_paths(),
    {
        let ghost before = self.dirs@;
        self.dirs.push(path);
        proof {
            assert(self.dirs@.map_values(|p: String| p@) =~= before.map_values(|p: String| p@).push(
                self.dirs@.last()@,
            ));
        }
    }

    /// The files to remove, in the order they were added.
    pub fn files(&self) -> (r: &Vec<String>)
        ensures
            r@.map_values(|p: String| p@) == self.file_paths(),
    {
        &self.files
    }

    /// The directories to remove, in the order they were added.
    pub fn dirs(&self) -> (r: &Vec<String>)
        ensures
            r@.map_values(|p: String| p@) == self.dir_paths(),
    {
        &self.dirs
    }
}

} // verus!
