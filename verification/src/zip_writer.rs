//! The archive writer of the `zip` crate, as far as this library uses it.
//!
//! Nothing in this file is proved. Each contract below restates what the
//! `zip` crate does; the rest of the library is verified against them.

use vstd::prelude::*;
use vstd::string::StringSliceAdditionalSpecFns;

verus! {

/// A `zip::ZipWriter` that writes into memory. The writer's own type is
/// generic over any `Write + Seek`, traits that the verifier knows nothing
/// of, so it is kept behind this struct, which the verifier takes as
/// opaque: what a writer holds is known through `zip_entries` alone.
#[verifier::external_body]
pub struct MemoryZip {
    inner: zip::ZipWriter<std::io::Cursor<Vec<u8>>>,
}

/// The error of the `zip` crate, carried from the writer to
/// `zip_error_text` and never looked into.
#[verifier::external_type_specification]
#[verifier::external_body]
pub struct ExZipError(zip::result::ZipError);

/// The error of `std::io`, carried from the writer to `io_error_text` and
/// never looked into.
#[verifier::external_type_specification]
#[verifier::external_body]
pub struct ExIoError(std::io::Error);

/// The entries that a writer holds, oldest first: for each its name and the
/// bytes written to it so far. Every entry was started without
/// compression. Of a writer on which a call has failed, nothing is known.
pub uninterp spec fn zip_entries(w: MemoryZip) -> Seq<(Seq<char>, Seq<u8>)>;

/// Whether an entry is open on the writer: one that was started and that
/// bytes can be written to.
pub uninterp spec fn zip_open(w: MemoryZip) -> bool;

/// Whether a writer that holds `entries` starts one more entry under
/// `name`.
pub uninterp spec fn zip_takes_name(entries: Seq<(Seq<char>, Seq<u8>)>, name: Seq<char>) -> bool;

/// The bytes of the finished archive that holds `entries`, each stored
/// without compression and under the writer's default options.
pub uninterp spec fn stored_archive(entries: Seq<(Seq<char>, Seq<u8>)>) -> Seq<u8>;

/// The longest entry name, in bytes, that the writer takes.
pub const MAX_NAME_BYTES: usize = 0xFFFF;

/// The most bytes that the writer takes for one entry.
pub const MAX_ENTRY_BYTES: u64 = 0xFFFF_FFFF;

/// `name` is the name of one of `entries`.
pub open spec fn holds_name(entries: Seq<(Seq<char>, Seq<u8>)>, name: Seq<char>) -> bool {
    exists|i: int| 0 <= i < entries.len() && (#[trigger] entries[i]).0 == name
}

/// `entries` with `bytes` added to the end of the last entry.
pub open spec fn extended_last(entries: Seq<(Seq<char>, Seq<u8>)>, bytes: Seq<u8>) -> Seq<
    (Seq<char>, Seq<u8>),
> {
    if entries.len() == 0 {
        entries
    } else {
        entries.drop_last().push((entries.last().0, entries.last().1 + bytes))
    }
}

/// `zip::ZipWriter::new` over an empty in-memory buffer: the new writer
/// holds no entry, and none is open.
#[verifier::external_body]
pub(crate) fn zip_new() -> (w: MemoryZip)
    ensures
        zip_entries(w) == Seq::<(Seq<char>, Seq<u8>)>::empty(),
        !zip_open(w),
{
    MemoryZip { inner: zip::ZipWriter::new(std::io::Cursor::new(Vec::new())) }
}

/// `zip::ZipWriter::start_file` with the default options and no
/// compression. The call closes the entry before and, where it succeeds,
/// opens an empty one named `name` behind those the writer holds. Whether
/// it succeeds depends on the entries held and on the name alone, the
/// writer being in memory; it fails on a name that the writer holds
/// already. The crate panics on a name longer than a 16-bit length can
/// say, so such a name is not accepted.
#[verifier::external_body]
pub(crate) fn zip_start_file(w: &mut MemoryZip, name: &str) -> (res: Result<
    (),
    zip::result::ZipError,
>)
    requires
        name.spec_bytes().len() <= MAX_NAME_BYTES,
    ensures
        res is Ok <==> zip_takes_name(zip_entries(*old(w)), name@),
        res is Ok ==> !holds_name(zip_entries(*old(w)), name@),
        res is Ok ==> zip_entries(*final(w)) == zip_entries(*old(w)).push((name@, Seq::empty())),
        res is Ok ==> zip_open(*final(w)),
{
    let stored = zip::write::SimpleFileOptions::default().compression_method(
        zip::CompressionMethod::Stored,
    );
    w.inner.start_file(name, stored)
}

/// `std::io::Write::write_all` on the writer. Where it succeeds, `bytes`
/// stand at the end of the entry that was started last, which stays open.
/// Writing nothing always succeeds. Other bytes are taken just when an
/// entry is open and stays, with them, within what an archive without the
/// large-file option can hold.
#[verifier::external_body]
pub(crate) fn zip_write_all(w: &mut MemoryZip, bytes: &[u8]) -> (res: Result<(), std::io::Error>)
    ensures
        res is Ok <==> bytes@.len() == 0 || (zip_open(*old(w)) && zip_entries(*old(w)).len() > 0
            && zip_entries(*old(w)).last().1.len() + bytes@.len() <= MAX_ENTRY_BYTES),
        res is Ok ==> zip_entries(*final(w)) == extended_last(zip_entries(*old(w)), bytes@),
        res is Ok ==> zip_open(*final(w)) == zip_open(*old(w)),
{
    std::io::Write::write_all(&mut w.inner, bytes)
}

/// `zip::ZipWriter::finish`, then `std::io::Cursor::into_inner`: the bytes
/// of the archive with the entries that the writer holds. Finishing only
/// closes the open entry and writes the directory of the archive, which a
/// writer in memory never refuses. The crate is built without its `time`
/// feature, so every entry carries the same fixed date, and the bytes
/// depend on the entries alone.
#[verifier::external_body]
pub(crate) fn zip_finish(w: MemoryZip) -> (res: Result<Vec<u8>, zip::result::ZipError>)
    ensures
        res is Ok,
        res matches Ok(bytes) ==> bytes@ == stored_archive(zip_entries(w)),
{
    match w.inner.finish() {
        Ok(cursor) => Ok(cursor.into_inner()),
        Err(e) => Err(e),
    }
}

/// `ToString::to_string` on a `zip::result::ZipError`: the text that the
/// crate gives the error. Nothing is claimed of it.
#[verifier::external_body]
pub(crate) fn zip_error_text(e: &zip::result::ZipError) -> (text: String) {
    e.to_string()
}

/// `ToString::to_string` on a `std::io::Error`: the text that the error
/// displays as. Nothing is claimed of it.
#[verifier::external_body]
pub(crate) fn io_error_text(e: &std::io::Error) -> (text: String) {
    e.to_string()
}

} // verus!
