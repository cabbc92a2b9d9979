//! What every operation starts with: the path it is about, and what the
//! disk holds there.

use crate::path::{
    confined, has_parent_ref, invalid_path_text, requested, resolve_path, resolved, StoragePath,
};
use crate::reply::{rejected, Reply, Status};
use vstd::prelude::*;

verus! {

/// What a path names on disk, as found before an operation acts on it.
#[derive(Clone, Copy, Debug, PartialEq, Eq, Structural)]
pub enum Found {
    /// The path names nothing.
    Nothing,
    /// A regular file.
    File,
    /// A directory.
    Directory,
    /// Something else: a socket, a device.
    Other,
}

/// Finds the path under the storage root that a request is about, or the
/// reply that refuses the request: a bad request, for a path with two dots
/// in a row.
pub fn locate(path: Option<String>) -> (res: Result<StoragePath, Reply>)
    ensures
        res is Err <==> has_parent_ref(requested(path)),
        res matches Err(reply) ==> reply@ == (Status::BadRequest, invalid_path_text()),
        res matches Ok(target) ==> target@ == resolved(requested(path)) && confined(target@),
{
    match resolve_path(path) {
        Ok(target) => Ok(target),
        Err(reason) => Err(rejected(reason)),
    }
}

} // verus!
