//! Deleting a file or a directory.

use crate::path::StoragePath;
use crate::reply::{failed, not_found, not_found_text, Reply, Status};
use crate::request::Found;
use vstd::prelude::*;

verus! {

/// What to do about a request to delete.
#[derive(Debug)]
pub enum DeleteStep {
    /// Answer, and leave the disk as it is.
    Refuse(Reply),
    /// Remove the directory with everything in it.
    RemoveTree(StoragePath),
    /// Remove the one file.
    RemoveFile(StoragePath),
}

/// The text of the reply when the path was deleted.
pub open spec fn deleted_text() -> Seq<char> {
    "Deleted"@
}

/// Decides on a request to delete `target`, given what it names. Nothing
/// is not found; a directory goes with all that it holds; anything else is
/// removed as a file.
pub fn delete_file(target: StoragePath, found: Found) -> (step: DeleteStep)
    ensures
        match found {
            Found::Nothing => (step matches DeleteStep::Refuse(reply) && reply@ == (
                Status::NotFound,
                not_found_text(),
            )),
            Found::Directory => (step matches DeleteStep::RemoveTree(path) && path@ == target@),
            Found::File | Found::Other => (step matches DeleteStep::RemoveFile(path) && path@
                == target@),
        },
{
    match found {
        Found::Nothing => DeleteStep::Refuse(not_found()),
        Found::Directory => DeleteStep::RemoveTree(target),
        Found::File | Found::Other => DeleteStep::RemoveFile(target),
    }
}

/// The reply once the disk has answered the removal: success, or a server
/// error with the disk's own words.
pub fn deleted(outcome: Result<(), String>) -> (reply: Reply)
    ensures
        outcome is Ok ==> reply@ == (Status::Success, deleted_text()),
        outcome matches Err(reason) ==> reply@ == (Status::ServerError, reason@),
{
    match outcome {
        Ok(()) => Reply::fixed(Status::Success, "Deleted"),
        Err(reason) => failed(reason),
    }
}

} // verus!
