//! Uploading files into a directory.
//!
//! An upload is a sequence of parts. The application reads them one by
//! one and asks here, for each, what to do with it and how to go on.

use crate::path::{join, joined, StoragePath};
use crate::reply::{failed, rejected, Reply, Status};
use vstd::prelude::*;

verus! {

/// What reading the next part of an upload gave.
#[derive(Debug)]
pub enum Part {
    /// A part, with the file name it carries, if it carries one.
    Named(Option<String>),
    /// The upload has no further part.
    End,
    /// The upload is malformed; the text says how.
    Broken(String),
}

/// What to do about a part of an upload.
#[derive(Debug)]
pub enum UploadStep {
    /// Pass the part over and read the next one.
    Skip,
    /// Read the part's bytes and write them to this path, in place of what
    /// the path may hold.
    Store(String),
    /// Answer: the upload is over.
    Finish(Reply),
}

/// The text of the reply when every part was taken.
pub open spec fn uploaded_text() -> Seq<char> {
    "File uploaded"@
}

/// Where the part named `file_name` of an upload into `target` is
/// written: under the directory, by its name.
pub open spec fn destination(target: Seq<char>, file_name: Seq<char>) -> Seq<char> {
    joined(target, file_name)
}

/// Decides on the next part of an upload into the directory `target`.
///
/// A part with a file name that is not empty is stored under that name. A
/// part without one is passed over. The end of the upload is answered with
/// success, a malformed upload with a bad request.
pub fn upload_file(target: &StoragePath, part: Part) -> (step: UploadStep)
    ensures
        match part {
            Part::Named(Some(name)) => if name@.len() > 0 {
                step matches UploadStep::Store(path) && path@ == destination(target@, name@)
            } else {
                step is Skip
            },
            Part::Named(None) => step is Skip,
            Part::End => (step matches UploadStep::Finish(reply) && reply@ == (
                Status::Success,
                uploaded_text(),
            )),
            Part::Broken(reason) => (step matches UploadStep::Finish(reply) && reply@ == (
                Status::BadRequest,
                reason@,
            )),
        },
{
    match part {
        Part::Named(Some(name)) => {
            if name.as_str().unicode_len() == 0 {
                UploadStep::Skip
            } else {
                UploadStep::Store(join(target.as_str(), name.as_str()))
            }
        },
        Part::Named(None) => UploadStep::Skip,
        Part::End => UploadStep::Finish(Reply::fixed(Status::Success, "File uploaded")),
        Part::Broken(reason) => UploadStep::Finish(rejected(reason)),
    }
}

/// How storing one part went.
#[derive(Debug)]
pub enum Stored {
    /// The bytes are on disk.
    Written,
    /// The part's bytes could not be read from the upload.
    Unreadable(String),
    /// The disk refused the write.
    Unwritten(String),
}

/// Decides how an upload goes on once a part was dealt with: on to the
/// next part after a write, else a reply that ends the upload, a bad
/// request for bytes that could not be read and a server error for a
/// write that failed. Parts written before stay written.
pub fn part_stored(outcome: Stored) -> (reply: Option<Reply>)
    ensures
        match outcome {
            Stored::Written => reply is None,
            Stored::Unreadable(reason) => (reply matches Some(r) && r@ == (
                Status::BadRequest,
                reason@,
            )),
            Stored::Unwritten(reason) => (reply matches Some(r) && r@ == (
                Status::ServerError,
                reason@,
            )),
        },
{
    match outcome {
        Stored::Written => None,
        Stored::Unreadable(reason) => Some(rejected(reason)),
        Stored::Unwritten(reason) => Some(failed(reason)),
    }
}

} // verus!
