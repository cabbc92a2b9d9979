//! Downloading a file, or a directory as an archive.

use crate::archive::ArchiveError;
use crate::path::{final_name, StoragePath};
use crate::reply::{failed, not_found, not_found_text, Reply, Status};
use crate::request::Found;
use vstd::prelude::*;

verus! {

/// The headers that make a reply a download.
#[derive(Debug, PartialEq, Eq)]
pub struct Attachment {
    /// The value of `Content-Type`.
    pub content_type: String,
    /// The value of `Content-Disposition`.
    pub disposition: String,
}

impl View for Attachment {
    type V = (Seq<char>, Seq<char>);

    open spec fn view(&self) -> (Seq<char>, Seq<char>) {
        (self.content_type@, self.disposition@)
    }
}

/// What to do about a request to download.
#[derive(Debug)]
pub enum DownloadStep {
    /// Answer, and read nothing.
    Refuse(Reply),
    /// Send the bytes of the file at this path, under these headers.
    SendFile(StoragePath, Attachment),
    /// Pack the directory at this path and send the archive.
    SendArchive(StoragePath),
}

/// The content type of a file sent as it is.
pub open spec fn file_type_text() -> Seq<char> {
    "application/octet-stream"@
}

/// The content type of an archive.
pub open spec fn archive_type_text() -> Seq<char> {
    "application/zip"@
}

/// The disposition that offers a download to be saved as `file_name`.
pub open spec fn disposition_of(file_name: Seq<char>) -> Seq<char> {
    "attachment; filename=\""@ + file_name + "\""@
}

/// The name under which the archive of the directory `name` is offered.
pub open spec fn archive_name_of(name: Seq<char>) -> Seq<char> {
    name + ".zip"@
}

/// The text of the reply when a file could not be opened.
pub open spec fn open_failed_text() -> Seq<char> {
    "Could not open file"@
}

/// The disposition that offers a download to be saved as `file_name`.
pub fn disposition(file_name: &str) -> (value: String)
    ensures
        value@ == disposition_of(file_name@),
{
    let mut value = String::from_str("attachment; filename=\"");
    value.append(file_name);
    value.append("\"");
    value
}

/// The headers of the download of the file at `target`: the bytes are sent
/// as they are, to be saved under the file's own name.
pub fn file_headers(target: &StoragePath) -> (headers: Attachment)
    ensures
        headers@ == (file_type_text(), disposition_of(final_name(target@))),
{
    let name = target.file_name();
    Attachment {
        content_type: String::from_str("application/octet-stream"),
        disposition: disposition(name.as_str()),
    }
}

/// The headers of the download of the directory at `target`: an archive,
/// to be saved under the directory's name with `.zip` behind it.
pub fn archive_headers(target: &StoragePath) -> (headers: Attachment)
    ensures
        headers@ == (archive_type_text(), disposition_of(archive_name_of(final_name(target@)))),
{
    let mut name = target.file_name();
    name.append(".zip");
    Attachment {
        content_type: String::from_str("application/zip"),
        disposition: disposition(name.as_str()),
    }
}

/// Decides on a request to download `target`, given what it names.
/// Nothing is not found; a regular file is sent as it is; anything else is
/// walked as a directory and sent as an archive.
pub fn download_file(target: StoragePath, found: Found) -> (step: DownloadStep)
    ensures
        match found {
            Found::Nothing => (step matches DownloadStep::Refuse(reply) && reply@ == (
                Status::NotFound,
                not_found_text(),
            )),
            Found::File => (step matches DownloadStep::SendFile(path, headers) && path@ == target@
                && headers@ == (file_type_text(), disposition_of(final_name(target@)))),
            Found::Directory | Found::Other => (step matches DownloadStep::SendArchive(path)
                && path@ == target@),
        },
{
    match found {
        Found::Nothing => DownloadStep::Refuse(not_found()),
        Found::File => {
            let headers = file_headers(&target);
            DownloadStep::SendFile(target, headers)
        },
        Found::Directory | Found::Other => DownloadStep::SendArchive(target),
    }
}

/// The reply when the file to send could not be opened.
pub fn open_failed() -> (reply: Reply)
    ensures
        reply@ == (Status::ServerError, open_failed_text()),
{
    Reply::fixed(Status::ServerError, "Could not open file")
}

/// How packing a directory went.
#[derive(Debug)]
pub enum Packed {
    /// The bytes of the archive.
    Archive(Vec<u8>),
    /// The walk of the directory, or reading a file in it, failed; the
    /// text is the disk's.
    Unreadable(String),
    /// The archive could not be made.
    Refused(ArchiveError),
}

/// The reply to the download of the directory `target` once packing has
/// ended: the archive under its headers, or a server error with the text
/// of what failed. No part of an archive is sent.
pub fn archive_packed(target: &StoragePath, packed: Packed) -> (res: Result<
    (Attachment, Vec<u8>),
    Reply,
>)
    ensures
        match packed {
            Packed::Archive(bytes) => (res matches Ok(sent) && sent.1@ == bytes@ && sent.0@ == (
                archive_type_text(),
                disposition_of(archive_name_of(final_name(target@))),
            )),
            Packed::Unreadable(reason) => (res matches Err(reply) && reply@ == (
                Status::ServerError,
                reason@,
            )),
            Packed::Refused(error) => (res matches Err(reply) && reply@ == (
                Status::ServerError,
                error.text(),
            )),
        },
{
    match packed {
        Packed::Archive(bytes) => Ok((archive_headers(target), bytes)),
        Packed::Unreadable(reason) => Err(failed(reason)),
        Packed::Refused(error) => Err(failed(error.message())),
    }
}

} // verus!
