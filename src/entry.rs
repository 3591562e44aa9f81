use vstd::prelude::*;

verus! {

/// What the engine reads of a file's metadata.
#[derive(Clone, Copy, Debug, PartialEq, Eq, Structural)]
pub struct Meta {
    pub is_dir: bool,
}

/// A name to print in the current block.
#[derive(Debug)]
pub struct Entry {
    pub name: String,
    pub meta: Meta,
}

/// A directory whose contents are listed in a later block of its own.
#[derive(Debug)]
pub struct Directory {
    /// The path by which the directory is read.
    pub path: String,
    /// The label it is sorted by.
    pub name: String,
    pub meta: Meta,
}

} // verus!

verus! {

/// One child of a directory, as read from the file system.
#[derive(Debug)]
pub struct Child {
    /// The path by which the child is reached.
    pub path: String,
    /// Its leaf name.
    pub name: String,
    pub meta: Meta,
}

/// What was read of one directory: its own metadata and its parent's (read
/// only where the `.` and `..` pseudo-entries are shown), and its children in
/// the order the file system gave them.
#[derive(Debug)]
pub struct DirListing {
    pub self_meta: Option<Meta>,
    pub parent_meta: Option<Meta>,
    pub children: Vec<Child>,
}

/// A path named for listing, with its metadata, or `None` where it could
/// not be read.
#[derive(Debug)]
pub struct Probe {
    pub path: String,
    pub meta: Option<Meta>,
}

/// An entry as name and metadata.
pub open spec fn entry_view(e: Entry) -> (Seq<char>, Meta) {
    (e.name@, e.meta)
}

/// A directory as path, name and metadata.
pub open spec fn dir_view(d: Directory) -> (Seq<char>, Seq<char>, Meta) {
    (d.path@, d.name@, d.meta)
}

pub open spec fn entries_view(v: Seq<Entry>) -> Seq<(Seq<char>, Meta)> {
    v.map_values(|e: Entry| entry_view(e))
}

pub open spec fn dirs_view(v: Seq<Directory>) -> Seq<(Seq<char>, Seq<char>, Meta)> {
    v.map_values(|d: Directory| dir_view(d))
}

pub(crate) proof fn lemma_entries_view_push(v: Seq<Entry>, e: Entry)
    ensures
        entries_view(v.push(e)) == entries_view(v).push(entry_view(e)),
{
    assert(entries_view(v.push(e)) =~= entries_view(v).push(entry_view(e)));
}

pub(crate) proof fn lemma_dirs_view_push(v: Seq<Directory>, d: Directory)
    ensures
        dirs_view(v.push(d)) == dirs_view(v).push(dir_view(d)),
{
    assert(dirs_view(v.push(d)) =~= dirs_view(v).push(dir_view(d)));
}

} // verus!
