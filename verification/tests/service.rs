use backed::archive::{DirectoryArchive, Walked};
use backed::delete::{delete_file, deleted, DeleteStep};
use backed::download::{archive_packed, download_file, open_failed, Attachment, DownloadStep, Packed};
use backed::folder::{create_folder, folder_created, FolderStep};
use backed::listing::{list_files, FileEntry, Listed};
use backed::path::StoragePath;
use backed::reply::{Reply, Status};
use backed::request::{locate, Found};
use backed::upload::{part_stored, upload_file, Part, Stored, UploadStep};
use std::collections::BTreeMap;
use std::io::{Cursor, Read};

/// A disk in memory: for each path, the bytes of the file there, or `None`
/// for a directory.
struct Disk {
    nodes: BTreeMap<String, Option<Vec<u8>>>,
}

fn key(path: &str) -> String {
    let parts: Vec<&str> = path.split('/').filter(|part| !part.is_empty() && *part != ".").collect();
    parts.join("/")
}

impl Disk {
    fn new() -> Disk {
        let mut nodes = BTreeMap::new();
        nodes.insert("storage".to_string(), None);
        Disk { nodes }
    }

    fn found(&self, path: &str) -> Found {
        match self.nodes.get(&key(path)) {
            None => Found::Nothing,
            Some(Some(_)) => Found::File,
            Some(None) => Found::Directory,
        }
    }

    fn create_dir_all(&mut self, path: &str) -> Result<(), String> {
        let full = key(path);
        let mut at = String::new();
        for part in full.split('/') {
            if !at.is_empty() {
                at.push('/');
            }
            at.push_str(part);
            match self.nodes.get(&at) {
                Some(Some(_)) => return Err("Not a directory".to_string()),
                Some(None) => {}
                None => {
                    self.nodes.insert(at.clone(), None);
                }
            }
        }
        Ok(())
    }

    fn write(&mut self, path: &str, data: &[u8]) -> Result<(), String> {
        let full = key(path);
        let parent = match full.rfind('/') {
            Some(at) => &full[..at],
            None => "",
        };
        match self.nodes.get(parent) {
            Some(None) => {}
            _ => return Err("No such file or directory".to_string()),
        }
        if let Some(None) = self.nodes.get(&full) {
            return Err("Is a directory".to_string());
        }
        self.nodes.insert(full, Some(data.to_vec()));
        Ok(())
    }

    fn read(&self, path: &str) -> Result<Vec<u8>, String> {
        match self.nodes.get(&key(path)) {
            Some(Some(bytes)) => Ok(bytes.clone()),
            _ => Err("No such file or directory".to_string()),
        }
    }

    fn read_dir(&self, path: &str) -> Option<Vec<Listed>> {
        let full = key(path);
        match self.nodes.get(&full) {
            Some(None) => {}
            _ => return None,
        }
        let lead = format!("{}/", full);
        let mut listed = Vec::new();
        for (path, node) in &self.nodes {
            if let Some(name) = path.strip_prefix(&lead) {
                if !name.contains('/') {
                    listed.push(Listed { name: name.to_string(), is_dir: Some(node.is_none()) });
                }
            }
        }
        Some(listed)
    }

    fn walk(&self, path: &str) -> Vec<(String, bool)> {
        let full = key(path);
        let lead = format!("{}/", full);
        let mut walked = vec![(path.to_string(), self.found(path) == Found::File)];
        for (at, node) in &self.nodes {
            if let Some(rest) = at.strip_prefix(&lead) {
                let below = if path.ends_with('/') {
                    format!("{}{}", path, rest)
                } else {
                    format!("{}/{}", path, rest)
                };
                walked.push((below, node.is_some()));
            }
        }
        walked
    }

    fn remove_tree(&mut self, path: &str) -> Result<(), String> {
        let full = key(path);
        let lead = format!("{}/", full);
        self.nodes.retain(|at, _| *at != full && !at.starts_with(&lead));
        Ok(())
    }

    fn remove_file(&mut self, path: &str) -> Result<(), String> {
        let full = key(path);
        match self.nodes.get(&full) {
            Some(Some(_)) => {
                self.nodes.remove(&full);
                Ok(())
            }
            _ => Err("Is a directory".to_string()),
        }
    }
}

fn reply(status: Status, body: &str) -> Reply {
    Reply { status, body: body.to_string() }
}

fn create(disk: &mut Disk, path: &str) -> Reply {
    let target = match locate(Some(path.to_string())) {
        Ok(target) => target,
        Err(reply) => return reply,
    };
    let exists = disk.found(target.as_str()) != Found::Nothing;
    match create_folder(target, exists) {
        FolderStep::Refuse(reply) => reply,
        FolderStep::Create(path) => folder_created(disk.create_dir_all(path.as_str())),
    }
}

fn upload(disk: &mut Disk, dir: Option<&str>, parts: Vec<(Option<&str>, Result<&[u8], &str>)>) -> Reply {
    let target = match locate(dir.map(|dir| dir.to_string())) {
        Ok(target) => target,
        Err(reply) => return reply,
    };
    for (name, data) in parts {
        match upload_file(&target, Part::Named(name.map(|name| name.to_string()))) {
            UploadStep::Skip => continue,
            UploadStep::Finish(reply) => return reply,
            UploadStep::Store(path) => {
                let outcome = match data {
                    Err(reason) => Stored::Unreadable(reason.to_string()),
                    Ok(bytes) => match disk.write(&path, bytes) {
                        Ok(()) => Stored::Written,
                        Err(reason) => Stored::Unwritten(reason),
                    },
                };
                if let Some(reply) = part_stored(outcome) {
                    return reply;
                }
            }
        }
    }
    match upload_file(&target, Part::End) {
        UploadStep::Finish(reply) => reply,
        other => panic!("unexpected: {:?}", other),
    }
}

fn list(disk: &Disk, path: Option<&str>) -> Result<Vec<FileEntry>, Reply> {
    let target = locate(path.map(|path| path.to_string()))?;
    Ok(list_files(disk.read_dir(target.as_str())))
}

enum Sent {
    Text(Reply),
    Bytes(Attachment, Vec<u8>),
}

fn pack_directory(disk: &Disk, target: &StoragePath) -> Packed {
    let mut archive = DirectoryArchive::begin(target);
    for (path, is_file) in disk.walk(target.as_str()) {
        match archive.visit(&path, is_file) {
            Err(error) => return Packed::Refused(error),
            Ok(false) => continue,
            Ok(true) => {
                let content = match disk.read(&path) {
                    Ok(content) => content,
                    Err(reason) => return Packed::Unreadable(reason),
                };
                if let Err(error) = archive.write(&content) {
                    return Packed::Refused(error);
                }
            }
        }
    }
    match archive.finish() {
        Ok(bytes) => Packed::Archive(bytes),
        Err(error) => Packed::Refused(error),
    }
}

fn download(disk: &Disk, path: &str) -> Sent {
    let target = match locate(Some(path.to_string())) {
        Ok(target) => target,
        Err(reply) => return Sent::Text(reply),
    };
    let found = disk.found(target.as_str());
    match download_file(target, found) {
        DownloadStep::Refuse(reply) => Sent::Text(reply),
        DownloadStep::SendFile(path, headers) => match disk.read(path.as_str()) {
            Ok(bytes) => Sent::Bytes(headers, bytes),
            Err(_) => Sent::Text(open_failed()),
        },
        DownloadStep::SendArchive(path) => {
            let packed = pack_directory(disk, &path);
            match archive_packed(&path, packed) {
                Ok((headers, bytes)) => Sent::Bytes(headers, bytes),
                Err(reply) => Sent::Text(reply),
            }
        }
    }
}

fn delete(disk: &mut Disk, path: &str) -> Reply {
    let target = match locate(Some(path.to_string())) {
        Ok(target) => target,
        Err(reply) => return reply,
    };
    let found = disk.found(target.as_str());
    match delete_file(target, found) {
        DeleteStep::Refuse(reply) => reply,
        DeleteStep::RemoveTree(path) => deleted(disk.remove_tree(path.as_str())),
        DeleteStep::RemoveFile(path) => deleted(disk.remove_file(path.as_str())),
    }
}

fn unpack(bytes: Vec<u8>) -> Vec<(String, Vec<u8>)> {
    let mut archive = zip::ZipArchive::new(Cursor::new(bytes)).unwrap();
    let mut entries = Vec::new();
    for i in 0..archive.len() {
        let mut entry = archive.by_index(i).unwrap();
        let mut content = Vec::new();
        entry.read_to_end(&mut content).unwrap();
        entries.push((entry.name().to_string(), content));
    }
    entries
}

fn entry(name: &str, is_dir: bool) -> FileEntry {
    FileEntry { name: name.to_string(), is_dir }
}

#[test]
fn folder_is_created_with_its_parents() {
    let mut disk = Disk::new();
    assert_eq!(create(&mut disk, "a/b/c"), reply(Status::Success, "Folder created"));
    assert_eq!(disk.found("storage/a"), Found::Directory);
    assert_eq!(disk.found("storage/a/b/c"), Found::Directory);
}

#[test]
fn creating_an_existing_folder_conflicts_and_changes_nothing() {
    let mut disk = Disk::new();
    create(&mut disk, "docs");
    upload(&mut disk, Some("docs"), vec![(Some("a.txt"), Ok(b"alpha"))]);
    let before = disk.nodes.clone();
    assert_eq!(create(&mut disk, "docs"), reply(Status::Conflict, "Folder or file already exists"));
    assert_eq!(create(&mut disk, "/docs"), reply(Status::Conflict, "Folder or file already exists"));
    assert_eq!(disk.nodes, before);
}

#[test]
fn creating_a_folder_over_a_file_conflicts_and_changes_nothing() {
    let mut disk = Disk::new();
    upload(&mut disk, None, vec![(Some("a.txt"), Ok(b"alpha"))]);
    let before = disk.nodes.clone();
    assert_eq!(create(&mut disk, "a.txt"), reply(Status::Conflict, "Folder or file already exists"));
    assert_eq!(disk.nodes, before);
}

#[test]
fn creating_the_root_conflicts() {
    let mut disk = Disk::new();
    assert_eq!(create(&mut disk, ""), reply(Status::Conflict, "Folder or file already exists"));
}

#[test]
fn creating_a_folder_below_a_file_is_a_server_error() {
    let mut disk = Disk::new();
    upload(&mut disk, None, vec![(Some("a.txt"), Ok(b"alpha"))]);
    assert_eq!(create(&mut disk, "a.txt/b"), reply(Status::ServerError, "Not a directory"));
}

#[test]
fn every_operation_refuses_a_parent_reference() {
    let mut disk = Disk::new();
    let refused = reply(Status::BadRequest, "Invalid path");
    assert_eq!(create(&mut disk, "../x"), refused);
    assert_eq!(upload(&mut disk, Some("a/../.."), vec![(Some("a.txt"), Ok(b"x"))]), refused);
    assert_eq!(list(&disk, Some("..")), Err(reply(Status::BadRequest, "Invalid path")));
    assert!(matches!(download(&disk, "a/.."), Sent::Text(r) if r == refused));
    assert_eq!(delete(&mut disk, "x..y"), refused);
    assert_eq!(disk.nodes.len(), 1);
}

#[test]
fn listing_a_missing_directory_is_empty() {
    let disk = Disk::new();
    assert_eq!(list(&disk, Some("nowhere")), Ok(vec![]));
}

#[test]
fn listing_a_file_is_empty() {
    let mut disk = Disk::new();
    upload(&mut disk, None, vec![(Some("a.txt"), Ok(b"alpha"))]);
    assert_eq!(list(&disk, Some("a.txt")), Ok(vec![]));
}

#[test]
fn listing_shows_the_entries_of_one_level() {
    let mut disk = Disk::new();
    create(&mut disk, "docs/sub");
    upload(&mut disk, Some("docs"), vec![(Some("a.txt"), Ok(b"alpha"))]);
    upload(&mut disk, Some("docs/sub"), vec![(Some("b.txt"), Ok(b"beta"))]);
    assert_eq!(list(&disk, Some("docs")), Ok(vec![entry("a.txt", false), entry("sub", true)]));
    assert_eq!(list(&disk, None), Ok(vec![entry("docs", true)]));
}

#[test]
fn listing_keeps_order_and_takes_an_unknown_type_for_a_file() {
    let read = vec![
        Listed { name: "z".to_string(), is_dir: Some(true) },
        Listed { name: "a".to_string(), is_dir: None },
        Listed { name: "m".to_string(), is_dir: Some(false) },
    ];
    assert_eq!(
        list_files(Some(read)),
        vec![entry("z", true), entry("a", false), entry("m", false)]
    );
    assert_eq!(list_files(Some(vec![])), vec![]);
    assert_eq!(list_files(None), vec![]);
}

#[test]
fn uploaded_file_downloads_identically_under_its_name() {
    let mut disk = Disk::new();
    create(&mut disk, "docs");
    let content: Vec<u8> = (0..=255).collect();
    assert_eq!(
        upload(&mut disk, Some("docs"), vec![(Some("data.bin"), Ok(&content))]),
        reply(Status::Success, "File uploaded")
    );
    match download(&disk, "docs/data.bin") {
        Sent::Bytes(headers, bytes) => {
            assert_eq!(bytes, content);
            assert_eq!(headers.content_type, "application/octet-stream");
            assert_eq!(headers.disposition, "attachment; filename=\"data.bin\"");
        }
        Sent::Text(reply) => panic!("unexpected: {:?}", reply),
    }
}

#[test]
fn download_reaches_the_upload_whatever_the_directory_path_looks_like() {
    for dest in ["docs", "/docs", "docs/", "//docs//", "./docs/."] {
        let mut disk = Disk::new();
        create(&mut disk, "docs");
        assert_eq!(
            upload(&mut disk, Some(dest), vec![(Some("data.bin"), Ok(b"payload"))]),
            reply(Status::Success, "File uploaded")
        );
        match download(&disk, &format!("{}/data.bin", dest)) {
            Sent::Bytes(headers, bytes) => {
                assert_eq!(bytes, b"payload");
                assert_eq!(headers.content_type, "application/octet-stream");
                assert_eq!(headers.disposition, "attachment; filename=\"data.bin\"");
            }
            Sent::Text(reply) => panic!("unexpected: {:?}", reply),
        }
    }
    let mut disk = Disk::new();
    upload(&mut disk, Some(""), vec![(Some("data.bin"), Ok(b"payload"))]);
    assert!(matches!(download(&disk, "/data.bin"), Sent::Bytes(_, bytes) if bytes == b"payload"));
}

#[test]
fn directory_downloads_alike_whatever_its_path_looks_like() {
    for path in ["docs", "/docs", "docs/", "docs/."] {
        let mut disk = Disk::new();
        create(&mut disk, "docs/sub");
        create(&mut disk, "docs/sub2");
        upload(&mut disk, Some("docs"), vec![(Some("a.txt"), Ok(b"alpha"))]);
        upload(&mut disk, Some("docs/sub"), vec![(Some("b.txt"), Ok(b"beta"))]);
        match download(&disk, path) {
            Sent::Bytes(headers, bytes) => {
                assert_eq!(headers.disposition, "attachment; filename=\"docs.zip\"");
                let names: Vec<String> = unpack(bytes)
                    .into_iter()
                    .map(|(name, _)| name.replace("/./", "/"))
                    .collect();
                assert_eq!(names, vec!["docs/a.txt".to_string(), "docs/sub/b.txt".to_string()]);
            }
            Sent::Text(reply) => panic!("unexpected: {:?}", reply),
        }
    }
}

#[test]
fn upload_without_a_path_goes_to_the_root() {
    let mut disk = Disk::new();
    upload(&mut disk, None, vec![(Some("a.txt"), Ok(b"alpha"))]);
    assert_eq!(disk.read("storage/a.txt"), Ok(b"alpha".to_vec()));
    assert!(matches!(download(&disk, "/a.txt"), Sent::Bytes(_, bytes) if bytes == b"alpha"));
}

#[test]
fn second_upload_of_a_name_replaces_the_first() {
    let mut disk = Disk::new();
    create(&mut disk, "docs");
    upload(&mut disk, Some("docs"), vec![(Some("a.txt"), Ok(b"first"))]);
    upload(&mut disk, Some("docs"), vec![(Some("a.txt"), Ok(b"second"))]);
    assert_eq!(disk.read("storage/docs/a.txt"), Ok(b"second".to_vec()));
    assert_eq!(list(&disk, Some("docs")), Ok(vec![entry("a.txt", false)]));
}

#[test]
fn later_part_of_one_upload_replaces_an_earlier_one_of_its_name() {
    let mut disk = Disk::new();
    upload(&mut disk, None, vec![(Some("a.txt"), Ok(b"first")), (Some("a.txt"), Ok(b"second"))]);
    assert_eq!(disk.read("storage/a.txt"), Ok(b"second".to_vec()));
}

#[test]
fn parts_without_a_usable_name_are_passed_over() {
    let mut disk = Disk::new();
    let parts = vec![(None, Ok(&b"x"[..])), (Some(""), Ok(&b"y"[..])), (Some("a.txt"), Ok(&b"z"[..]))];
    assert_eq!(upload(&mut disk, None, parts), reply(Status::Success, "File uploaded"));
    assert_eq!(list(&disk, None), Ok(vec![entry("a.txt", false)]));
}

#[test]
fn upload_stops_at_the_first_failure_and_keeps_what_was_written() {
    let mut disk = Disk::new();
    let parts = vec![
        (Some("a.txt"), Ok(&b"alpha"[..])),
        (Some("b.txt"), Err("failed to read stream")),
        (Some("c.txt"), Ok(&b"gamma"[..])),
    ];
    assert_eq!(upload(&mut disk, None, parts), reply(Status::BadRequest, "failed to read stream"));
    assert_eq!(list(&disk, None), Ok(vec![entry("a.txt", false)]));
}

#[test]
fn upload_into_a_missing_directory_is_a_server_error() {
    let mut disk = Disk::new();
    assert_eq!(
        upload(&mut disk, Some("nowhere"), vec![(Some("a.txt"), Ok(b"alpha"))]),
        reply(Status::ServerError, "No such file or directory")
    );
}

#[test]
fn malformed_upload_is_a_bad_request() {
    let target = locate(None).unwrap();
    match upload_file(&target, Part::Broken("incomplete multipart stream".to_string())) {
        UploadStep::Finish(r) => assert_eq!(r, reply(Status::BadRequest, "incomplete multipart stream")),
        other => panic!("unexpected: {:?}", other),
    }
}

#[test]
fn upload_destination_is_the_directory_and_the_name() {
    let target = locate(Some("docs".to_string())).unwrap();
    match upload_file(&target, Part::Named(Some("a.txt".to_string()))) {
        UploadStep::Store(path) => assert_eq!(path, "storage/docs/a.txt"),
        other => panic!("unexpected: {:?}", other),
    }
    let root = locate(None).unwrap();
    match upload_file(&root, Part::Named(Some("a.txt".to_string()))) {
        UploadStep::Store(path) => assert_eq!(path, "storage/a.txt"),
        other => panic!("unexpected: {:?}", other),
    }
}

#[test]
fn parts_of_different_names_go_to_different_paths() {
    let mut disk = Disk::new();
    upload(&mut disk, None, vec![(Some("a.txt"), Ok(b"first")), (Some("b.txt"), Ok(b"second"))]);
    assert_eq!(disk.read("storage/a.txt"), Ok(b"first".to_vec()));
    assert_eq!(disk.read("storage/b.txt"), Ok(b"second".to_vec()));
}

#[test]
fn downloading_a_missing_path_is_not_found() {
    let disk = Disk::new();
    assert!(matches!(download(&disk, "nowhere"), Sent::Text(r) if r == reply(Status::NotFound, "Not found")));
}

#[test]
fn file_that_cannot_be_opened_is_a_server_error() {
    assert_eq!(open_failed(), reply(Status::ServerError, "Could not open file"));
}

#[test]
fn directory_downloads_as_an_archive_of_its_files() {
    let mut disk = Disk::new();
    create(&mut disk, "docs/sub");
    create(&mut disk, "docs/sub2");
    upload(&mut disk, Some("docs"), vec![(Some("a.txt"), Ok(b"alpha"))]);
    upload(&mut disk, Some("docs/sub"), vec![(Some("b.txt"), Ok(b"beta"))]);
    match download(&disk, "docs") {
        Sent::Bytes(headers, bytes) => {
            assert_eq!(headers.content_type, "application/zip");
            assert_eq!(headers.disposition, "attachment; filename=\"docs.zip\"");
            assert_eq!(
                unpack(bytes),
                vec![
                    ("docs/a.txt".to_string(), b"alpha".to_vec()),
                    ("docs/sub/b.txt".to_string(), b"beta".to_vec()),
                ]
            );
        }
        Sent::Text(reply) => panic!("unexpected: {:?}", reply),
    }
}

#[test]
fn root_downloads_as_an_archive_named_after_it() {
    let mut disk = Disk::new();
    upload(&mut disk, None, vec![(Some("a.txt"), Ok(b"alpha"))]);
    match download(&disk, "") {
        Sent::Bytes(headers, bytes) => {
            assert_eq!(headers.disposition, "attachment; filename=\"storage.zip\"");
            assert_eq!(unpack(bytes), vec![("storage/a.txt".to_string(), b"alpha".to_vec())]);
        }
        Sent::Text(reply) => panic!("unexpected: {:?}", reply),
    }
}

#[test]
fn failed_packing_is_a_server_error_without_an_archive() {
    let target = locate(Some("docs".to_string())).unwrap();
    assert_eq!(
        archive_packed(&target, Packed::Unreadable("Permission denied".to_string())),
        Err(reply(Status::ServerError, "Permission denied"))
    );
    assert_eq!(
        archive_packed(&target, Packed::Refused(backed::archive::ArchiveError::NameTooLong)),
        Err(reply(Status::ServerError, "entry name too long"))
    );
    assert_eq!(
        archive_packed(
            &target,
            Packed::Refused(backed::archive::ArchiveError::Writer("i/o error".to_string()))
        ),
        Err(reply(Status::ServerError, "i/o error"))
    );
}

#[test]
fn packed_bytes_are_sent_as_they_are() {
    let target = locate(Some("a/b".to_string())).unwrap();
    let (headers, bytes) = archive_packed(&target, Packed::Archive(vec![1, 2, 3])).unwrap();
    assert_eq!(bytes, vec![1, 2, 3]);
    assert_eq!(
        headers,
        Attachment {
            content_type: "application/zip".to_string(),
            disposition: "attachment; filename=\"b.zip\"".to_string(),
        }
    );
}

#[test]
fn anything_but_a_file_downloads_as_an_archive() {
    let target = || locate(Some("docs".to_string())).unwrap();
    assert!(matches!(download_file(target(), Found::Directory), DownloadStep::SendArchive(p) if p.as_str() == "storage/docs"));
    assert!(matches!(download_file(target(), Found::Other), DownloadStep::SendArchive(p) if p.as_str() == "storage/docs"));
    assert!(matches!(download_file(target(), Found::File), DownloadStep::SendFile(p, _) if p.as_str() == "storage/docs"));
    assert!(matches!(download_file(target(), Found::Nothing), DownloadStep::Refuse(_)));
}

#[test]
fn deleting_a_directory_removes_what_it_holds() {
    let mut disk = Disk::new();
    create(&mut disk, "docs/sub");
    upload(&mut disk, Some("docs"), vec![(Some("a.txt"), Ok(b"alpha"))]);
    upload(&mut disk, Some("docs/sub"), vec![(Some("b.txt"), Ok(b"beta"))]);
    upload(&mut disk, None, vec![(Some("keep.txt"), Ok(b"kept"))]);
    assert_eq!(delete(&mut disk, "docs"), reply(Status::Success, "Deleted"));
    assert_eq!(list(&disk, Some("docs")), Ok(vec![]));
    assert_eq!(disk.found("storage/docs/a.txt"), Found::Nothing);
    assert_eq!(disk.found("storage/docs/sub/b.txt"), Found::Nothing);
    assert_eq!(list(&disk, None), Ok(vec![entry("keep.txt", false)]));
}

#[test]
fn deleting_a_file_removes_it_alone() {
    let mut disk = Disk::new();
    upload(&mut disk, None, vec![(Some("a.txt"), Ok(b"alpha")), (Some("b.txt"), Ok(b"beta"))]);
    assert_eq!(delete(&mut disk, "a.txt"), reply(Status::Success, "Deleted"));
    assert_eq!(list(&disk, None), Ok(vec![entry("b.txt", false)]));
}

#[test]
fn deleting_a_missing_path_is_not_found() {
    let mut disk = Disk::new();
    assert_eq!(delete(&mut disk, "nowhere"), reply(Status::NotFound, "Not found"));
    assert_eq!(delete(&mut disk, "docs"), reply(Status::NotFound, "Not found"));
}

#[test]
fn deleting_the_root_is_not_held_back() {
    let mut disk = Disk::new();
    upload(&mut disk, None, vec![(Some("a.txt"), Ok(b"alpha"))]);
    assert_eq!(delete(&mut disk, ""), reply(Status::Success, "Deleted"));
    assert!(disk.nodes.is_empty());
}

#[test]
fn removal_follows_what_the_path_names() {
    let target = || locate(Some("x".to_string())).unwrap();
    assert!(matches!(delete_file(target(), Found::Directory), DeleteStep::RemoveTree(p) if p.as_str() == "storage/x"));
    assert!(matches!(delete_file(target(), Found::File), DeleteStep::RemoveFile(p) if p.as_str() == "storage/x"));
    assert!(matches!(delete_file(target(), Found::Other), DeleteStep::RemoveFile(p) if p.as_str() == "storage/x"));
}

#[test]
fn failed_removal_is_a_server_error() {
    assert_eq!(deleted(Err("Permission denied".to_string())), reply(Status::ServerError, "Permission denied"));
    assert_eq!(folder_created(Err("Read-only file system".to_string())), reply(Status::ServerError, "Read-only file system"));
}

#[test]
fn status_codes() {
    assert_eq!(Status::Success.code(), 200);
    assert_eq!(Status::BadRequest.code(), 400);
    assert_eq!(Status::NotFound.code(), 404);
    assert_eq!(Status::Conflict.code(), 409);
    assert_eq!(Status::ServerError.code(), 500);
}

#[test]
fn banner_and_body_limit() {
    assert_eq!(backed::reply::root(), "Disk Manager Backend Running");
    assert_eq!(backed::reply::BODY_LIMIT, 1024 * 1024 * 1024);
}

#[test]
fn walked_tree_packs_like_the_steps() {
    let mut disk = Disk::new();
    create(&mut disk, "docs/sub");
    upload(&mut disk, Some("docs"), vec![(Some("a.txt"), Ok(b"alpha"))]);
    upload(&mut disk, Some("docs/sub"), vec![(Some("b.txt"), Ok(b"beta"))]);
    let target = locate(Some("docs".to_string())).unwrap();
    let items: Vec<Walked> = disk
        .walk(target.as_str())
        .into_iter()
        .map(|(path, is_file)| Walked {
            content: if is_file { disk.read(&path).unwrap() } else { Vec::new() },
            path,
            is_file,
        })
        .collect();
    let whole = backed::archive::pack(&target, &items).unwrap();
    match pack_directory(&disk, &target) {
        Packed::Archive(bytes) => assert_eq!(bytes, whole),
        other => panic!("unexpected: {:?}", other),
    }
}
