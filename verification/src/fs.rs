//! Directory listings of a path-based view of the store.

use vstd::prelude::*;

verus! {

/// One entry of a directory listing.
pub struct DirEntry {
    path: String,
    is_dir: bool,
}

/// An entry as a mathematical value.
pub struct DirEntryModel {
    pub path: Seq<char>,
    pub is_dir: bool,
}

impl View for DirEntry {
    type V = DirEntryModel;

    closed spec fn view(&self) -> DirEntryModel {
        DirEntryModel { path: self.path@, is_dir: self.is_dir }
    }
}

impl DirEntry {
    /// An entry for `path`, a directory or a file.
    pub fn new(path: String, is_dir: bool) -> (entry: Self)
        ensures
            entry@ == (DirEntryModel { path: path@, is_dir }),
    {
        DirEntry { path, is_dir }
    }

    /// The path of the entry.
    pub fn path(&self) -> (p: &str)
        ensures
            p@ == self@.path,
    {
        self.path.as_str()
    }

    /// Whether the entry is a directory.
    pub fn is_dir(&self) -> (d: bool)
        ensures
            d == self@.is_dir,
    {
        self.is_dir
    }

    /// Whether the entry is a file.
    pub fn is_file(&self) -> (f: bool)
        ensures
            f == !self@.is_dir,
    {
        !self.is_dir
    }
}

impl Clone for DirEntry {
    /// A copy of the entry.
    fn clone(&self) -> (copy: Self)
        ensures
            copy@ == self@,
    {
        DirEntry { path: self.path.clone(), is_dir: self.is_dir }
    }
}

/// A directory listing that hands out its entries one by one.
pub struct ReadDir {
    entries: Vec<DirEntry>,
    pos: usize,
}

impl ReadDir {
    /// The entries not yet handed out.
    pub closed spec fn remaining(&self) -> Seq<DirEntryModel> {
        Seq::new(
            if self.pos <= self.entries@.len() {
                (self.entries@.len() - self.pos) as nat
            } else {
                0nat
            },
            |i: int| self.entries@[self.pos + i]@,
        )
    }

    /// The models of a sequence of entries.
    pub open spec fn models(entries: Seq<DirEntry>) -> Seq<DirEntryModel> {
        Seq::new(entries.len(), |i: int| entries[i]@)
    }

    /// A listing of `entries`, from the first on.
    pub fn new(entries: Vec<DirEntry>) -> (dir: Self)
        ensures
            dir.remaining() == Self::models(entries@),
    {
        let dir = ReadDir { entries, pos: 0 };
        assert(dir.remaining() =~= Self::models(entries@));
        dir
    }

    /// The next entry, or nothing once every entry has been handed out.
    pub fn next(&mut self) -> (entry: Option<DirEntry>)
        ensures
            match entry {
                Some(e) => old(self).remaining().len() > 0 && e@ == old(self).remaining()[0]
                    && final(self).remaining() == old(self).remaining().drop_first(),
                None => old(self).remaining().len() == 0 && final(self).remaining() == old(
                    self,
                ).remaining(),
            },
    {
        if self.pos < self.entries.len() {
            let entry = self.entries[self.pos].clone();
            self.pos = self.pos + 1;
            assert(self.remaining() =~= old(self).remaining().drop_first());
            Some(entry)
        } else {
            assert(self.remaining() =~= old(self).remaining());
            None
        }
    }
}

/// What the store knows of a file.
#[derive(Debug, Clone)]
pub struct FileMetadata {
    /// Number of bytes of the content.
    pub size: u64,
    /// Seconds since the Unix epoch at creation.
    pub created: u64,
    /// Seconds since the Unix epoch at the last change.
    pub modified: u64,
    /// The signature of the content, in hexadecimal.
    pub signature: String,
}

} // verus!
