//! Packing a directory into an archive.
//!
//! The archive holds the regular files found under a directory, each
//! stored without compression under a name that starts with the
//! directory's own name. Directories get no entry of their own.

use crate::path::{
    final_name_at, final_name_span, is_separator, lemma_final_name_unique, same_start,
    starts_alike, StoragePath,
};
use crate::zip_writer::{
    extended_last, holds_name, io_error_text, stored_archive, zip_entries, zip_error_text,
    zip_finish, zip_new, zip_open, zip_start_file, zip_takes_name, zip_write_all, MemoryZip,
    MAX_ENTRY_BYTES, MAX_NAME_BYTES,
};
use vstd::prelude::*;

verus! {

/// Why an archive could not be made.
#[derive(Debug)]
pub enum ArchiveError {
    /// A path that was handed in is neither the directory that is being
    /// packed nor a path below it.
    Stray,
    /// An entry's name is longer than an archive can record.
    NameTooLong,
    /// The archive writer refused; the text is its own.
    Writer(String),
}

/// The text for a path that is neither the directory being packed nor
/// below it.
pub open spec fn stray_text() -> Seq<char> {
    "path lies outside the archived directory"@
}

/// The text for a name that is longer than an archive can record.
pub open spec fn name_too_long_text() -> Seq<char> {
    "entry name too long"@
}

impl ArchiveError {
    /// The text of this error.
    pub open spec fn text(self) -> Seq<char> {
        match self {
            ArchiveError::Stray => stray_text(),
            ArchiveError::NameTooLong => name_too_long_text(),
            ArchiveError::Writer(text) => text@,
        }
    }

    /// The text of this error, for the reply.
    pub fn message(&self) -> (text: String)
        ensures
            text@ == self.text(),
    {
        match self {
            ArchiveError::Stray => String::from_str("path lies outside the archived directory"),
            ArchiveError::NameTooLong => String::from_str("entry name too long"),
            ArchiveError::Writer(text) => text.clone(),
        }
    }
}

/// An entry of an archive: its name and its bytes.
pub type Entry = (Seq<char>, Seq<u8>);

/// `path` is the directory `target` or lies below it: it starts as
/// `target` does up to the end of the directory's name, and ends there or
/// goes on with a separator.
pub open spec fn at_or_below(target: Seq<char>, path: Seq<char>) -> bool {
    let end = final_name_span(target).1;
    same_start(path, target, end) && (path.len() == end || is_separator(path[end]))
}

/// The name under which the file at `path` enters the archive of the
/// directory `target`: `path` from where the name of the directory
/// starts. Only the directory itself and the paths below it have such a
/// name, so every name is the directory's own name or begins with it and
/// a separator.
pub open spec fn entry_name_of(target: Seq<char>, path: Seq<char>) -> Option<Seq<char>> {
    if at_or_below(target, path) {
        Some(path.skip(final_name_span(target).0))
    } else {
        None
    }
}

/// Whether an archive can record `name`: its UTF-8 form is no longer than
/// the writer takes.
pub open spec fn name_fits(name: Seq<char>) -> bool {
    vstd::utf8::encode_utf8(name).len() <= MAX_NAME_BYTES
}

/// Why the regular file at `path` cannot enter the archive of `target`,
/// if it cannot: it is neither the directory nor below it, or its name is
/// too long.
pub open spec fn refusal(target: Seq<char>, path: Seq<char>) -> Option<ArchiveError> {
    match entry_name_of(target, path) {
        None => Some(ArchiveError::Stray),
        Some(name) => if name_fits(name) {
            None
        } else {
            Some(ArchiveError::NameTooLong)
        },
    }
}

/// The naming of the entries of one directory's archive.
pub struct EntryNames {
    target: String,
    start: usize,
    end: usize,
}

impl EntryNames {
    #[verifier::type_invariant]
    spec fn spans_final_name(self) -> bool {
        final_name_at(self.target@, self.start as int, self.end as int)
    }

    /// The directory whose archive the names are for.
    pub closed spec fn target(&self) -> Seq<char> {
        self.target@
    }

    /// The naming for the archive of the directory `target`.
    pub fn of(target: &StoragePath) -> (names: EntryNames)
        ensures
            names.target() == target@,
    {
        let (start, end) = target.name_span();
        EntryNames { target: String::from_str(target.as_str()), start, end }
    }

    /// The name under which the file at `path` enters the archive, if
    /// the path is the directory or lies below it.
    pub fn name<'a>(&self, path: &'a str) -> (name: Option<&'a str>)
        ensures
            name is Some <==> entry_name_of(self.target(), path@) is Some,
            name matches Some(n) ==> Some(n@) == entry_name_of(self.target(), path@),
    {
        proof {
            use_type_invariant(self);
            lemma_final_name_unique(self.target@, self.start as int, self.end as int);
        }
        if !starts_alike(path, self.target.as_str(), self.end) {
            return None;
        }
        let total: usize = path.unicode_len();
        if total > self.end && path.get_char(self.end) != '/' {
            return None;
        }
        proof {
            assert(path@.subrange(self.start as int, total as int) =~= path@.skip(
                self.start as int,
            ));
        }
        Some(path.substring_char(self.start, total))
    }
}

/// An archive of one directory, while it is being filled.
pub struct DirectoryArchive {
    names: EntryNames,
    writer: MemoryZip,
}

impl DirectoryArchive {
    /// The directory that is being packed.
    pub closed spec fn target(&self) -> Seq<char> {
        self.names.target()
    }

    /// The entries so far, oldest first.
    pub closed spec fn entries(&self) -> Seq<Entry> {
        zip_entries(self.writer)
    }

    /// Whether an entry is open: one that `write` adds bytes to.
    pub closed spec fn open(&self) -> bool {
        zip_open(self.writer)
    }

    /// An archive of the directory `target`, without entries so far.
    pub fn begin(target: &StoragePath) -> (archive: DirectoryArchive)
        ensures
            archive.target() == target@,
            archive.entries() == Seq::<Entry>::empty(),
            !archive.open(),
    {
        DirectoryArchive { names: EntryNames::of(target), writer: zip_new() }
    }

    /// Takes the next path that the walk of the directory found.
    ///
    /// Anything but a regular file is passed over: the answer is
    /// `Ok(false)`. A regular file gets a new, empty entry and the answer
    /// `Ok(true)`: its bytes are owed next, through `write`. A path that
    /// cannot enter the archive is refused and leaves the archive as it
    /// was. The writer has the last word on a name; it takes none twice.
    /// Once the writer has refused, what the archive holds is no longer
    /// known: drop it.
    pub fn visit(&mut self, path: &str, is_file: bool) -> (res: Result<bool, ArchiveError>)
        ensures
            final(self).target() == old(self).target(),
            !is_file ==> res == Ok::<bool, ArchiveError>(false) && final(self).same_content(*old(self)),
            is_file ==> match refusal(old(self).target(), path@) {
                Some(error) => res == Err::<bool, ArchiveError>(error) && final(self).same_content(
                    *old(self),
                ),
                None => {
                    let name = entry_name_of(old(self).target(), path@).unwrap();
                    &&& res is Ok <==> zip_takes_name(old(self).entries(), name)
                    &&& res is Ok ==> !holds_name(old(self).entries(), name)
                    &&& res matches Ok(opened) ==> opened && final(self).opened_after(
                        *old(self),
                        name,
                    )
                    &&& res matches Err(error) ==> error is Writer
                },
            },
    {
        if !is_file {
            return Ok(false);
        }
        let name = match self.names.name(path) {
            Some(name) => name,
            None => {
                return Err(ArchiveError::Stray);
            },
        };
        if name.as_bytes().len() > MAX_NAME_BYTES {
            return Err(ArchiveError::NameTooLong);
        }
        match zip_start_file(&mut self.writer, name) {
            Ok(()) => Ok(true),
            Err(e) => Err(ArchiveError::Writer(zip_error_text(&e))),
        }
    }

    /// `self` holds the entries that `other` holds, with an entry open in
    /// both or in neither.
    pub open spec fn same_content(&self, other: DirectoryArchive) -> bool {
        self.entries() == other.entries() && self.open() == other.open()
    }

    /// `self` holds the entries that `other` holds and behind them an
    /// empty one named `name`, which is open.
    pub open spec fn opened_after(&self, other: DirectoryArchive, name: Seq<char>) -> bool {
        self.open() && self.entries() == other.entries().push((name, Seq::empty()))
    }

    /// Adds `content` to the end of the entry that `visit` opened last.
    /// Nothing can always be added. Bytes are taken just when an entry is
    /// open and does not grow past what an archive holds for one entry.
    /// Once the writer has refused, what the archive holds is no longer
    /// known: drop it.
    pub fn write(&mut self, content: &[u8]) -> (res: Result<(), ArchiveError>)
        ensures
            final(self).target() == old(self).target(),
            res is Ok <==> content@.len() == 0 || (old(self).open() && old(self).entries().len() > 0
                && old(self).entries().last().1.len() + content@.len() <= MAX_ENTRY_BYTES),
            res is Ok ==> final(self).entries() == extended_last(old(self).entries(), content@),
            res is Ok ==> final(self).open() == old(self).open(),
            res matches Err(e) ==> e is Writer,
    {
        match zip_write_all(&mut self.writer, content) {
            Ok(()) => Ok(()),
            Err(e) => Err(ArchiveError::Writer(io_error_text(&e))),
        }
    }

    /// Closes the archive and hands out its bytes: those of the archive
    /// that stores the entries, in their order, without compression.
    /// Closing never fails.
    pub fn finish(self) -> (res: Result<Vec<u8>, ArchiveError>)
        ensures
            res matches Ok(bytes) && bytes@ == stored_archive(self.entries()),
    {
        match zip_finish(self.writer) {
            Ok(bytes) => Ok(bytes),
            Err(e) => Err(ArchiveError::Writer(zip_error_text(&e))),
        }
    }
}

/// One path that a walk of a directory found, with what the disk holds
/// there.
#[derive(Debug)]
pub struct Walked {
    /// The path, as the walk gave it.
    pub path: String,
    /// Whether the path names a regular file.
    pub is_file: bool,
    /// The bytes of the file; of no account for anything else.
    pub content: Vec<u8>,
}

/// The entry that a walked path adds to the archive of `target`: one for a
/// regular file that lies under the directory, none for anything else.
pub open spec fn packed_entry(target: Seq<char>, item: Walked) -> Option<Entry> {
    if item.is_file {
        match entry_name_of(target, item.path@) {
            Some(name) => Some((name, item.content@)),
            None => None,
        }
    } else {
        None
    }
}

/// The entries of the archive of `target`, given what its walk found: the
/// regular files, in the order of the walk.
pub open spec fn tree_entries(target: Seq<char>, items: Seq<Walked>) -> Seq<Entry> {
    items.filter_map(|item: Walked| packed_entry(target, item))
}

/// Whether an archive of `target` that holds `before` takes the walked
/// path `item`: anything but a regular file is passed over, and a regular
/// file must be able to enter, under a name that the writer takes after
/// `before`, with no more bytes than an entry holds.
pub open spec fn packs(target: Seq<char>, before: Seq<Entry>, item: Walked) -> bool {
    item.is_file ==> {
        &&& refusal(target, item.path@) is None
        &&& zip_takes_name(before, entry_name_of(target, item.path@).unwrap())
        &&& item.content@.len() <= MAX_ENTRY_BYTES
    }
}

/// Whether packing takes the walked path at index `i`, after those before
/// it.
pub open spec fn packs_at(target: Seq<char>, items: Seq<Walked>, i: int) -> bool {
    packs(target, tree_entries(target, items.take(i)), items[i])
}

/// Packs what the walk of the directory `target` found into an archive.
///
/// The archive holds the regular files among `items`, in their order,
/// each under its path from the directory's own name on. Packing succeeds
/// just when every path is taken. Else it ends at the first that is not,
/// with the reason why the path cannot enter or, where the writer refuses
/// the name or the bytes, with the writer's error.
pub fn pack(target: &StoragePath, items: &Vec<Walked>) -> (res: Result<Vec<u8>, ArchiveError>)
    ensures
        res is Ok <==> forall|i: int| 0 <= i < items@.len() ==> packs_at(target@, items@, i),
        res matches Ok(bytes) ==> bytes@ == stored_archive(tree_entries(target@, items@)),
        res matches Err(error) ==> exists|i: int|
            {
                &&& 0 <= i < items@.len()
                &&& !#[trigger] packs_at(target@, items@, i)
                &&& forall|k: int| 0 <= k < i ==> packs_at(target@, items@, k)
                &&& match refusal(target@, items@[i].path@) {
                    Some(reason) => error == reason,
                    None => error is Writer,
                }
            },
{
    let mut archive = DirectoryArchive::begin(target);
    let mut i: usize = 0;
    proof {
        assert(items@.take(0) =~= Seq::<Walked>::empty());
    }
    while i < items.len()
        invariant
            i <= items@.len(),
            archive.target() == target@,
            archive.entries() == tree_entries(target@, items@.take(i as int)),
            forall|k: int| 0 <= k < i ==> packs_at(target@, items@, k),
        decreases items@.len() - i,
    {
        let item = &items[i];
        let ghost before = archive.entries();
        proof {
            assert(items@.take(i + 1).drop_last() =~= items@.take(i as int));
            assert(items@.take(i + 1).last() == items@[i as int]);
        }
        match archive.visit(item.path.as_str(), item.is_file) {
            Ok(true) => {
                let ghost name = entry_name_of(target@, item.path@).unwrap();
                proof {
                    assert(archive.entries().last() == (name, Seq::<u8>::empty()));
                }
                match archive.write(item.content.as_slice()) {
                    Ok(()) => {
                        proof {
                            let opened = before.push((name, Seq::<u8>::empty()));
                            assert(opened.drop_last() =~= before);
                            assert(Seq::<u8>::empty() + item.content@ =~= item.content@);
                            assert(archive.entries() =~= before + seq![(name, item.content@)]);
                        }
                    },
                    Err(error) => {
                        assert(!packs_at(target@, items@, i as int));
                        return Err(error);
                    },
                }
            },
            Ok(false) => {},
            Err(error) => {
                assert(!packs_at(target@, items@, i as int));
                return Err(error);
            },
        }
        assert(packs_at(target@, items@, i as int));
        i = i + 1;
    }
    proof {
        assert(items@.take(i as int) =~= items@);
    }
    archive.finish()
}

} // verus!
