//! Listing a directory.

use vstd::prelude::*;

verus! {

/// One entry of a directory, as the disk gave it.
#[derive(Debug)]
pub struct Listed {
    /// The entry's name.
    pub name: String,
    /// Whether the entry is a directory; `None` where the disk would not
    /// tell the entry's type.
    pub is_dir: Option<bool>,
}

/// One entry of a directory, as the client sees it.
#[derive(Debug, PartialEq, Eq)]
pub struct FileEntry {
    /// The entry's name.
    pub name: String,
    /// Whether the entry is a directory.
    pub is_dir: bool,
}

/// How an entry that was read is shown: under its name, and as a directory only
/// where the disk said so.
pub open spec fn shown(listed: Listed) -> (Seq<char>, bool) {
    (listed.name@, listed.is_dir == Some(true))
}

impl View for FileEntry {
    type V = (Seq<char>, bool);

    open spec fn view(&self) -> (Seq<char>, bool) {
        (self.name@, self.is_dir)
    }
}

/// What a listing shows, given what reading the directory gave: one entry
/// for each one read, in the order read, or none at all where the
/// directory could not be opened.
pub open spec fn listing_of(read: Option<Vec<Listed>>) -> Seq<(Seq<char>, bool)> {
    match read {
        Some(entries) => entries@.map_values(|listed: Listed| shown(listed)),
        None => Seq::empty(),
    }
}

/// Makes the listing of a directory from what reading it gave. A directory
/// that is missing, or that could not be opened, lists as empty: that is
/// no error.
pub fn list_files(read: Option<Vec<Listed>>) -> (entries: Vec<FileEntry>)
    ensures
        entries@.map_values(|entry: FileEntry| entry@) == listing_of(read),
        read is None ==> entries@.len() == 0,
{
    let mut entries: Vec<FileEntry> = Vec::new();
    if let Some(listed) = read {
        let ghost all = listed@;
        for item in each: listed
            invariant
                each.seq() == all,
                entries@.len() == each.index(),
                forall|i: int| 0 <= i < entries@.len() ==> (#[trigger] entries@[i])@ == shown(all[i]),
        {
            let is_dir = match item.is_dir {
                Some(told) => told,
                None => false,
            };
            entries.push(FileEntry { name: item.name, is_dir });
        }
        proof {
            assert(entries@.map_values(|entry: FileEntry| entry@) =~= all.map_values(
                |listed: Listed| shown(listed),
            ));
        }
    } else {
        proof {
            assert(entries@.map_values(|entry: FileEntry| entry@) =~= Seq::empty());
        }
    }
    entries
}

} // verus!
