//! Creating a folder.

use crate::path::StoragePath;
use crate::reply::{failed, Reply, Status};
use vstd::prelude::*;

verus! {

/// What to do about a request to create a folder.
#[derive(Debug)]
pub enum FolderStep {
    /// Answer, and leave the disk as it is.
    Refuse(Reply),
    /// Create the directory and every directory above it that is missing.
    Create(StoragePath),
}

/// The text of the reply when the path names something already.
pub open spec fn exists_text() -> Seq<char> {
    "Folder or file already exists"@
}

/// The text of the reply when the folder was created.
pub open spec fn created_text() -> Seq<char> {
    "Folder created"@
}

/// Decides on a request to create a folder at `target`, given whether the
/// path names something already, file or directory. If it does, the reply
/// is a conflict and nothing is created.
pub fn create_folder(target: StoragePath, exists: bool) -> (step: FolderStep)
    ensures
        exists ==> (step matches FolderStep::Refuse(reply) && reply@ == (
            Status::Conflict,
            exists_text(),
        )),
        !exists ==> (step matches FolderStep::Create(path) && path@ == target@),
{
    if exists {
        FolderStep::Refuse(Reply::fixed(Status::Conflict, "Folder or file already exists"))
    } else {
        FolderStep::Create(target)
    }
}

/// The reply once the disk has answered the creation: success, or a server
/// error with the disk's own words.
pub fn folder_created(outcome: Result<(), String>) -> (reply: Reply)
    ensures
        outcome is Ok ==> reply@ == (Status::Success, created_text()),
        outcome matches Err(reason) ==> reply@ == (Status::ServerError, reason@),
{
    match outcome {
        Ok(()) => Reply::fixed(Status::Success, "Folder created"),
        Err(reason) => failed(reason),
    }
}

} // verus!
