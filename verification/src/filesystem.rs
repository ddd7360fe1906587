//! A filesystem model: the directory entries the reconciliation engine reads
//! and writes, held as a map from absolute path to entry.
//!
//! The engine never needs file contents — only whether a path is occupied,
//! and, for a symlink, the target string stored in it. An entry therefore
//! carries at most its stored target. The surrounding program mirrors live
//! filesystem observations into these values.

use vstd::prelude::*;

verus! {

/// Mathematical image of one directory entry.
pub enum Node {
    /// A regular file (contents are irrelevant to linking).
    File,
    /// A directory.
    Dir,
    /// A symlink and the exact target string stored in it.
    Link(Seq<char>),
}

/// One directory entry as the engine sees it.
pub enum FsEntry {
    File,
    Dir,
    Symlink(String),
}

impl View for FsEntry {
    type V = Node;

    open spec fn view(&self) -> Node {
        match self {
            FsEntry::File => Node::File,
            FsEntry::Dir => Node::Dir,
            FsEntry::Symlink(target) => Node::Link(target@),
        }
    }
}

/// The filesystem state one run works against: a finite map from absolute
/// path to entry. Absent keys are absent paths.
pub struct FileSystem {
    entries: vstd::hash_map::StringHashMap<FsEntry>,
}

impl View for FileSystem {
    type V = Map<Seq<char>, Node>;

    closed spec fn view(&self) -> Map<Seq<char>, Node> {
        self.entries@.map_values(|e: FsEntry| e@)
    }
}

impl FileSystem {
    /// An empty filesystem.
    pub fn new() -> (fs: Self)
        ensures
            fs@ == Map::<Seq<char>, Node>::empty(),
    {
        let fs = FileSystem { entries: vstd::hash_map::StringHashMap::new() };
        proof {
            assert(fs@ =~= Map::<Seq<char>, Node>::empty());
        }
        fs
    }

    /// Whether `path` is occupied by any entry.
    pub fn contains(&self, path: &str) -> (r: bool)
        ensures
            r == self@.contains_key(path@),
    {
        self.entries.contains_key(path)
    }

    /// The entry at `path`, if the path is occupied.
    pub fn get<'a>(&'a self, path: &str) -> (r: Option<&'a FsEntry>)
        ensures
            match r {
                Some(e) => self@.contains_key(path@) && e@ == self@[path@],
                None => !self@.contains_key(path@),
            },
    {
        self.entries.get(path)
    }

    /// Puts a regular file at `path`, replacing whatever was there.
    pub fn add_file(&mut self, path: String)
        ensures
            final(self)@ == old(self)@.insert(path@, Node::File),
    {
        self.entries.insert(path, FsEntry::File);
        proof {
            assert(self@ =~= old(self)@.insert(path@, Node::File));
        }
    }

    /// Puts a directory at `path`, replacing whatever was there.
    pub fn add_dir(&mut self, path: String)
        ensures
            final(self)@ == old(self)@.insert(path@, Node::Dir),
    {
        self.entries.insert(path, FsEntry::Dir);
        proof {
            assert(self@ =~= old(self)@.insert(path@, Node::Dir));
        }
    }

    /// Creates a symlink at `path` whose stored target is `target`.
    /// The engine only ever calls this on an unoccupied path; the model
    /// keeps the same discipline as a precondition.
    pub fn create_symlink(&mut self, path: String, target: String)
        requires
            !old(self)@.contains_key(path@),
        ensures
            final(self)@ == old(self)@.insert(path@, Node::Link(target@)),
    {
        self.entries.insert(path, FsEntry::Symlink(target));
        proof {
            assert(self@ =~= old(self)@.insert(path@, Node::Link(target@)));
        }
    }
}

} // verus!
