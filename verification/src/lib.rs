//! The decision core of a small file-storage service.
//!
//! Every operation of the service (create a folder, upload, list, download,
//! delete) is split into the part that touches the disk or the network and
//! the part that decides. This crate holds the deciding part: how a client
//! path is confined to the storage root, which reply each observation of the
//! disk leads to, and how a directory becomes an archive.

pub mod path;
pub mod zip_writer;
pub mod reply;
pub mod archive;
pub mod request;
pub mod folder;
pub mod delete;
pub mod listing;
pub mod upload;
pub mod download;
pub mod laws;
