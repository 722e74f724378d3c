#![allow(dead_code)]

use std::collections::{BTreeMap, BTreeSet};

use bead::archive::{Archive, ArchiveCache, Container, FileFacts};
use bead::box_store::{Box, BoxEntry, DirScan, UnionBox};
use bead::error::BeadError;
use bead::meta::{BeadMeta, BeadName, InputSpec};
use bead::plan::{FsAction, Op};
use bead::table::Table;
use bead::timestamp::Instant;
use bead::workspace::{InputArea, Workspace, WorkspaceScan};

/// What a container file holds.
#[derive(Clone)]
struct Zip {
    meta: Option<BeadMeta>,
    entries: Vec<(String, Vec<u8>)>,
}

/// A directory tree kept in memory, on which the plans of the library are
/// carried out the way a disk would carry them out.
struct Disk {
    dirs: BTreeSet<String>,
    files: BTreeMap<String, Vec<u8>>,
    locked: BTreeSet<String>,
    metas: BTreeMap<String, BeadMeta>,
    maps: BTreeMap<String, Vec<(String, String)>>,
    zips: BTreeMap<String, Zip>,
    content_ids: BTreeMap<String, String>,
    modified: BTreeMap<String, Instant>,
    clock: i64,
}

fn parent_of(path: &str) -> Option<String> {
    let cut = path.rfind('/')?;
    if cut == 0 {
        if path.len() > 1 { Some("/".to_string()) } else { None }
    } else {
        Some(path[..cut].to_string())
    }
}

impl Disk {
    fn new() -> Disk {
        let mut dirs = BTreeSet::new();
        dirs.insert("/".to_string());
        dirs.insert("/tmp".to_string());
        Disk {
            dirs,
            files: BTreeMap::new(),
            locked: BTreeSet::new(),
            metas: BTreeMap::new(),
            maps: BTreeMap::new(),
            zips: BTreeMap::new(),
            content_ids: BTreeMap::new(),
            modified: BTreeMap::new(),
            clock: 1_700_000_000,
        }
    }

    fn is_dir(&self, path: &str) -> bool {
        self.dirs.contains(path)
    }

    fn is_file(&self, path: &str) -> bool {
        self.files.contains_key(path)
    }

    fn has(&self, path: &str) -> bool {
        self.is_dir(path) || self.is_file(path)
    }

    fn children(&self, dir: &str) -> Vec<String> {
        let prefix = if dir.ends_with('/') { dir.to_string() } else { format!("{}/", dir) };
        let mut found = Vec::new();
        for p in self.dirs.iter().chain(self.files.keys()) {
            if p.starts_with(&prefix) && p.len() > prefix.len() && !p[prefix.len()..].contains('/') {
                found.push(p.clone());
            }
        }
        found.sort();
        found
    }

    /// The path itself and every directory and file that lies in it.
    fn below(&self, path: &str) -> Vec<String> {
        let prefix = format!("{}/", path);
        let mut found = vec![path.to_string()];
        for p in self.dirs.iter().chain(self.files.keys()) {
            if p.starts_with(&prefix) {
                found.push(p.clone());
            }
        }
        found
    }

    fn mkdir(&mut self, path: &str) -> Result<(), String> {
        if self.has(path) {
            return Err(format!("exists: {}", path));
        }
        let parent = parent_of(path).ok_or("no parent")?;
        if !self.is_dir(&parent) {
            return Err(format!("no such directory: {}", parent));
        }
        if self.locked.contains(&parent) {
            return Err(format!("permission denied: {}", parent));
        }
        self.dirs.insert(path.to_string());
        Ok(())
    }

    fn mkdir_all(&mut self, path: &str) -> Result<(), String> {
        if self.is_dir(path) {
            return Ok(());
        }
        if let Some(parent) = parent_of(path) {
            self.mkdir_all(&parent)?;
        }
        self.mkdir(path)
    }

    fn write(&mut self, path: &str, data: &[u8]) -> Result<(), String> {
        let parent = parent_of(path).ok_or("no parent")?;
        if !self.is_dir(&parent) {
            return Err(format!("no such directory: {}", parent));
        }
        if self.is_dir(path) {
            return Err(format!("is a directory: {}", path));
        }
        if !self.is_file(path) && self.locked.contains(&parent) {
            return Err(format!("permission denied: {}", parent));
        }
        if self.is_file(path) && self.locked.contains(path) {
            return Err(format!("permission denied: {}", path));
        }
        self.files.insert(path.to_string(), data.to_vec());
        self.clock += 1;
        self.modified.insert(path.to_string(), Instant { secs: self.clock, nanos: 0 });
        Ok(())
    }

    fn remove_all(&mut self, path: &str) -> Result<(), String> {
        if !self.is_dir(path) {
            return Err(format!("no such directory: {}", path));
        }
        let below = format!("{}/", path);
        let inside: Vec<String> =
            self.dirs.iter().filter(|d| d.as_str() == path || d.starts_with(&below)).cloned().collect();
        for d in &inside {
            if self.locked.contains(d) && !self.children(d).is_empty() {
                return Err(format!("permission denied: {}", d));
            }
        }
        for d in &inside {
            self.dirs.remove(d);
            self.locked.remove(d);
        }
        let gone: Vec<String> = self.files.keys().filter(|f| f.starts_with(&below)).cloned().collect();
        for f in gone {
            self.locked.remove(&f);
            self.files.remove(&f);
            self.metas.remove(&f);
            self.maps.remove(&f);
        }
        Ok(())
    }

    /// Carries a plan out, action by action, and stops at the first that fails.
    /// A path that does not start at the root is taken from `/tmp`, the
    /// directory in which the disk is worked on.
    fn perform(&mut self, plan: &[FsAction], zip: Option<&Zip>, ws: Option<&Workspace>) -> Result<(), String> {
        for action in plan {
            let resolved =
                if action.path.starts_with('/') { action.path.clone() } else { format!("/tmp/{}", action.path) };
            let path = resolved.as_str();
            match action.op {
                Op::CreateDirAll => self.mkdir_all(path)?,
                Op::CreateDir => self.mkdir(path)?,
                Op::RemoveDirAll => self.remove_all(path)?,
                Op::RemoveFile => {
                    self.files.remove(path);
                    self.maps.remove(path);
                }
                Op::Lock => {
                    if !self.is_dir(path) {
                        return Err(format!("no such directory: {}", path));
                    }
                    for inside in self.below(path) {
                        self.locked.insert(inside);
                    }
                }
                Op::Unlock => {
                    for inside in self.below(path) {
                        self.locked.remove(&inside);
                    }
                }
                Op::UnlockDir => {
                    self.locked.remove(path);
                }
                Op::SaveMeta => {
                    let ws = ws.ok_or("no workspace to save")?;
                    self.write(path, b"meta")?;
                    self.metas.insert(path.to_string(), ws.meta.clone());
                }
                Op::SaveInputMap => {
                    let ws = ws.ok_or("no workspace to save")?;
                    self.write(path, b"map")?;
                    let mut pairs = Vec::new();
                    for i in 0..ws.input_map.len() {
                        pairs.push((ws.input_map.key_at(i).to_string(), ws.input_map.value_at(i).clone()));
                    }
                    self.maps.insert(path.to_string(), pairs);
                }
                Op::SaveCache => self.write(path, b"cache")?,
                Op::Extract => {
                    let zip = self.zips.get(&action.container).or(zip).ok_or("no container to extract from")?;
                    let data = zip
                        .entries
                        .iter()
                        .find(|(name, _)| name == &action.entry)
                        .map(|(_, data)| data.clone())
                        .ok_or("no such entry")?;
                    if let Some(parent) = parent_of(path) {
                        self.mkdir_all(&parent)?;
                    }
                    self.write(path, &data)?;
                }
            }
        }
        Ok(())
    }

    /// Writes a container file.
    fn put_zip(&mut self, path: &str, zip: Zip) {
        self.write(path, b"zip").unwrap();
        self.zips.insert(path.to_string(), zip);
    }

    /// What a caller finds out about the file at `path`.
    fn facts(&self, path: &str) -> Option<FileFacts> {
        if !self.has(path) {
            return None;
        }
        let container = match self.zips.get(path) {
            Some(zip) => Ok(Container {
                entries: zip.entries.iter().map(|(name, _)| name.clone()).collect(),
                meta: match &zip.meta {
                    Some(meta) => Ok(meta.clone()),
                    None => Err(BeadError::ZipError("specified file not found in archive".to_string())),
                },
            }),
            None => Err(BeadError::ZipError("invalid Zip archive".to_string())),
        };
        Some(FileFacts {
            modified: self.modified.get(path).copied(),
            cache: ArchiveCache { meta: None, content_id: self.content_ids.get(path).cloned() },
            container,
        })
    }

    /// Opens the archive at `path` as a caller would.
    fn open_archive(&self, path: &str, box_name: &str) -> Result<Archive, BeadError> {
        Archive::open(path, box_name, self.facts(path))
    }

    /// The listing of a box directory.
    fn scan_dir(&self, dir: &str) -> DirScan {
        let mut entries = Vec::new();
        if self.is_dir(dir) {
            for path in self.children(dir) {
                if let Some(facts) = self.facts(&path) {
                    entries.push(BoxEntry { path, facts });
                }
            }
        }
        DirScan { exists: self.has(dir), is_dir: self.is_dir(dir), entries }
    }

    /// What a caller finds in a directory that may be a workspace.
    fn scan_workspace(&self, dir: &str) -> WorkspaceScan {
        let input = format!("{}/input", dir);
        let input_area = if self.is_dir(&input) {
            let mut slots = Table::new();
            for slot in self.children(&input) {
                if self.is_dir(&slot) {
                    slots.insert(slot[input.len() + 1..].to_string(), self.locked.contains(&slot));
                }
            }
            Some(InputArea { locked: self.locked.contains(&input), slots })
        } else {
            None
        };
        let meta_path = format!("{}/.bead-meta/bead", dir);
        let map_path = format!("{}/.bead-meta/input.map", dir);
        WorkspaceScan {
            input_area,
            output_dir: self.is_dir(&format!("{}/output", dir)),
            temp_dir: self.is_dir(&format!("{}/temp", dir)),
            meta: if self.is_file(&meta_path) {
                Some(match self.metas.get(&meta_path) {
                    Some(meta) => Ok(meta.clone()),
                    None => Err(BeadError::JsonError("expected value".to_string())),
                })
            } else {
                None
            },
            input_map: self.maps.get(&map_path).map(|pairs| {
                let mut map = Table::new();
                for (k, v) in pairs {
                    map.insert(k.clone(), v.clone());
                }
                Ok(map)
            }),
        }
    }

    fn open_workspace(&self, dir: &str) -> Result<Workspace, BeadError> {
        Workspace::open(dir, self.scan_workspace(dir))
    }

    fn create_workspace(&mut self, dir: &str, kind: &str) -> Result<Workspace, BeadError> {
        let (workspace, plan) = Workspace::create(dir, kind.to_string(), self.has(dir))?;
        self.perform(&plan, None, Some(&workspace)).unwrap();
        Ok(workspace)
    }
}

const STAMP: &str = "20240115T120000000000+0000";

const NOW: Instant = Instant { secs: 1_800_000_000, nanos: 0 };

fn frozen_meta(kind: &str, name: &str, timestamp: &str) -> BeadMeta {
    BeadMeta::new_frozen(kind.to_string(), BeadName::new(name).unwrap(), timestamp.to_string())
}

fn meta_entries() -> Vec<(String, Vec<u8>)> {
    vec![
        ("meta/bead".to_string(), b"{}".to_vec()),
        ("meta/manifest".to_string(), b"{}".to_vec()),
        ("meta/input.map".to_string(), b"{}".to_vec()),
    ]
}

fn zip_with(kind: &str, name: &str, timestamp: &str, files: &[(&str, &[u8])]) -> Zip {
    let mut entries = meta_entries();
    for (path, data) in files {
        entries.push((path.to_string(), data.to_vec()));
    }
    Zip { meta: Some(frozen_meta(kind, name, timestamp)), entries }
}

fn sample_spec() -> InputSpec {
    InputSpec::new("input-kind".to_string(), "content123".to_string(), STAMP.to_string())
}

fn paths_of(plan: &[FsAction]) -> Vec<String> {
    plan.iter().map(|a| a.path.clone()).collect()
}

fn create_test_archive() -> (Disk, Archive) {
    let mut disk = Disk::new();
    disk.mkdir_all("/tmp/a").unwrap();
    let path = format!("/tmp/a/test-bead_{}.zip", STAMP);
    disk.put_zip(&path, zip_with("test-kind", "test-bead", STAMP, &[]));
    let archive = disk.open_archive(&path, "test-box").unwrap();
    (disk, archive)
}

fn archive_holding(files: &[(&str, &[u8])]) -> (Disk, Archive, Zip) {
    let mut disk = Disk::new();
    disk.mkdir_all("/tmp/a").unwrap();
    let path = format!("/tmp/a/test-bead_{}.zip", STAMP);
    let zip = zip_with("test-kind", "test-bead", STAMP, files);
    disk.put_zip(&path, zip.clone());
    let archive = disk.open_archive(&path, "test-box").unwrap();
    (disk, archive, zip)
}

fn create_test_archive_with_files() -> (Disk, Archive, Zip) {
    archive_holding(&[
        ("data/test.txt", b"test content"),
        ("data/subdir/nested.txt", b"nested content"),
        ("code/main.rs", b"fn main() {}"),
    ])
}

fn temp_dir(disk: &mut Disk, name: &str) -> String {
    let dir = format!("/tmp/{}", name);
    disk.mkdir_all(&dir).unwrap();
    dir
}

fn io(e: String) -> BeadError {
    BeadError::IoError(e)
}

/// Extracts one entry the way a caller does: lay out, make the directories,
/// check the place once more, copy.
fn extract_file(disk: &mut Disk, archive: &Archive, zip: &Zip, entry: &str, dest: &str) -> Result<String, BeadError> {
    let action = archive.extract_file(entry, dest)?;
    disk.mkdir_all(dest).map_err(io)?;
    Archive::check_containment(&action.path, dest)?;
    disk.perform(std::slice::from_ref(&action), Some(zip), None).map_err(io)?;
    Ok(action.path)
}

fn extract_dir(disk: &mut Disk, archive: &Archive, zip: &Zip, prefix: &str, dest: &str) -> Result<Vec<String>, BeadError> {
    let plan = archive.extract_dir(prefix, dest)?;
    disk.perform(&plan, Some(zip), None).map_err(io)?;
    Ok(paths_of(&plan))
}

fn extract_all(disk: &mut Disk, archive: &Archive, zip: &Zip, dest: &str) -> Result<(), BeadError> {
    disk.mkdir_all(dest).map_err(io)?;
    let plan = archive.extract_all(dest)?;
    disk.perform(&plan, Some(zip), None).map_err(io)?;
    Ok(())
}

fn text_at(disk: &Disk, path: &str) -> String {
    String::from_utf8(disk.files.get(path).unwrap().clone()).unwrap()
}

#[test]
fn test_archive_open() {
    let (_disk, archive) = create_test_archive();
    assert_eq!(archive.name().as_str(), "test-bead");
    assert_eq!(archive.box_name(), "test-box");
}

#[test]
fn test_archive_open_nonexistent() {
    let disk = Disk::new();
    let result = Archive::open("/nonexistent/archive.zip", "test-box", disk.facts("/nonexistent/archive.zip"));
    assert!(result.is_err());
    assert!(matches!(result.unwrap_err(), BeadError::BeadNotFound(_)));
}

#[test]
fn test_archive_metadata() {
    let (_disk, archive) = create_test_archive();

    let meta = archive.meta().unwrap();
    assert_eq!(meta.kind, "test-kind");
    assert_eq!(meta.freeze_name, Some("test-bead".to_string()));
    assert_eq!(meta.freeze_time, Some("20240115T120000000000+0000".to_string()));
}

#[test]
fn test_archive_kind() {
    let (_disk, archive) = create_test_archive();
    assert_eq!(archive.kind().unwrap(), "test-kind");
}

#[test]
fn test_archive_inputs() {
    let (_disk, archive) = create_test_archive();
    let inputs = archive.inputs();
    assert!(inputs.is_empty());
}

#[test]
fn test_archive_validate() {
    let (_disk, archive) = create_test_archive();
    assert!(archive.validate().is_ok());
}

#[test]
fn test_archive_parse_name_from_path() {
    // With timestamp
    let name = Archive::parse_name_from_path("/path/to/my-bead_20240115T120000000000+0000.zip").unwrap();
    assert_eq!(name.as_str(), "my-bead");

    // Without timestamp
    let name = Archive::parse_name_from_path("/path/to/simple-bead.zip").unwrap();
    assert_eq!(name.as_str(), "simple-bead");

    // Complex name
    let name = Archive::parse_name_from_path("bead-v2.1_20240115T120000000000+0000.zip").unwrap();
    assert_eq!(name.as_str(), "bead-v2.1");
}

#[test]
fn test_archive_create_from_workspace() {
    let mut disk = Disk::new();
    disk.mkdir_all("/tmp/w").unwrap();
    let workspace = disk.create_workspace("/tmp/w/test-workspace", "test-kind").unwrap();

    let archive_dir = temp_dir(&mut disk, "archives");
    let archive_path = format!("{}/test-workspace_20240115T120000000000+0000.zip", archive_dir);

    let freeze_time = "20240115T120000000000+0000".to_string();

    let archive = Archive::create(&archive_path, &workspace, freeze_time, disk.has(&archive_path)).unwrap();
    disk.put_zip(&archive_path, Zip { meta: Some(archive.meta().unwrap().clone()), entries: meta_entries() });

    assert_eq!(archive.name().as_str(), "test-workspace");
    assert!(disk.has(&archive_path));
}

#[test]
fn test_archive_extract_file() {
    let (mut disk, archive, zip) = create_test_archive_with_files();
    let extract_to = temp_dir(&mut disk, "x");

    // Extract a single file
    let result = extract_file(&mut disk, &archive, &zip, "data/test.txt", &extract_to);
    assert!(result.is_ok());

    let extracted_file = format!("{}/test.txt", extract_to);
    assert!(disk.has(&extracted_file));

    assert_eq!(text_at(&disk, &extracted_file), "test content");
}

#[test]
fn test_archive_extract_file_nonexistent() {
    let (mut disk, archive) = create_test_archive();
    let zip = zip_with("test-kind", "test-bead", STAMP, &[]);
    let extract_to = temp_dir(&mut disk, "x");

    let result = extract_file(&mut disk, &archive, &zip, "nonexistent.txt", &extract_to);
    assert!(result.is_err());
}

#[test]
fn test_archive_extract_dir() {
    let (mut disk, archive, zip) = create_test_archive_with_files();
    let extract_to = temp_dir(&mut disk, "x");

    // Extract entire data directory
    let result = extract_dir(&mut disk, &archive, &zip, "data/", &extract_to);
    assert!(result.is_ok());

    assert!(disk.has(&format!("{}/test.txt", extract_to)));
    assert!(disk.has(&format!("{}/subdir/nested.txt", extract_to)));
}

#[test]
fn test_archive_extract_all() {
    let (mut disk, archive, zip) = create_test_archive_with_files();
    let extract_to = temp_dir(&mut disk, "x");

    // Extract everything
    let result = extract_all(&mut disk, &archive, &zip, &extract_to);
    assert!(result.is_ok());

    // Check that various parts were extracted
    assert!(disk.has(&format!("{}/meta/bead", extract_to)));
    assert!(disk.has(&format!("{}/data/test.txt", extract_to)));
    assert!(disk.has(&format!("{}/code/main.rs", extract_to)));
}

#[test]
fn test_extract_file_with_nested_path() {
    let (mut disk, archive, zip) = create_test_archive_with_files();
    let extract_to = temp_dir(&mut disk, "x");

    // Extract a deeply nested file
    let result = extract_file(&mut disk, &archive, &zip, "data/subdir/nested.txt", &extract_to);
    assert!(result.is_ok());

    let extracted_file = format!("{}/nested.txt", extract_to);
    assert!(disk.has(&extracted_file));

    assert_eq!(text_at(&disk, &extracted_file), "nested content");
}

#[test]
fn test_extract_file_to_non_existent_dest() {
    let (mut disk, archive, zip) = create_test_archive_with_files();
    let extract_to = temp_dir(&mut disk, "x");
    let non_existent = format!("{}/non/existent/path", extract_to);

    // Should create parent directories
    let result = extract_file(&mut disk, &archive, &zip, "data/test.txt", &non_existent);
    assert!(result.is_ok());
    assert!(disk.has(&format!("{}/test.txt", non_existent)));
}

#[test]
fn test_extract_file_overwrite_existing() {
    let (mut disk, archive, zip) = create_test_archive_with_files();
    let extract_to = temp_dir(&mut disk, "x");

    // Create existing file with different content
    let existing_file = format!("{}/test.txt", extract_to);
    disk.write(&existing_file, b"old content").unwrap();

    // Extract should overwrite
    let result = extract_file(&mut disk, &archive, &zip, "data/test.txt", &extract_to);
    assert!(result.is_ok());

    assert_eq!(text_at(&disk, &existing_file), "test content");
}

#[test]
fn test_extract_empty_file() {
    let (mut disk, archive, zip) = archive_holding(&[("data/empty.txt", b"")]);
    let extract_to = temp_dir(&mut disk, "x");

    let result = extract_file(&mut disk, &archive, &zip, "data/empty.txt", &extract_to);
    assert!(result.is_ok());

    let extracted_file = format!("{}/empty.txt", extract_to);
    assert!(disk.has(&extracted_file));
    assert_eq!(text_at(&disk, &extracted_file), "");
}

#[test]
fn test_extract_large_file() {
    // Archive with large file (1MB)
    let large_content = vec![b'x'; 1024 * 1024];
    let (mut disk, archive, zip) = archive_holding(&[("data/large.txt", &large_content)]);
    let extract_to = temp_dir(&mut disk, "x");

    let result = extract_file(&mut disk, &archive, &zip, "data/large.txt", &extract_to);
    assert!(result.is_ok());

    let extracted_file = format!("{}/large.txt", extract_to);
    assert!(disk.has(&extracted_file));
    assert_eq!(disk.files.get(&extracted_file).unwrap().len(), 1024 * 1024);
}

#[test]
fn test_extract_file_with_special_chars() {
    let (mut disk, archive, zip) = archive_holding(&[("data/test file (copy).txt", b"special chars content")]);
    let extract_to = temp_dir(&mut disk, "x");

    let result = extract_file(&mut disk, &archive, &zip, "data/test file (copy).txt", &extract_to);
    assert!(result.is_ok());

    let extracted_file = format!("{}/test file (copy).txt", extract_to);
    assert!(disk.has(&extracted_file));
}

#[test]
fn test_extract_dir_empty() {
    // Archive with a file outside the directory asked for
    let (mut disk, archive, zip) = archive_holding(&[("other/file.txt", b"content")]);
    let extract_to = temp_dir(&mut disk, "x");

    // Try to extract from empty directory
    let result = extract_dir(&mut disk, &archive, &zip, "empty/", &extract_to);
    assert!(result.is_ok());
    assert!(result.unwrap().is_empty());
}

#[test]
fn test_extract_dir_deeply_nested() {
    let (mut disk, archive, zip) =
        archive_holding(&[("data/a/b/c/d/deep.txt", b"deep content"), ("data/a/b/mid.txt", b"mid content")]);
    let extract_to = temp_dir(&mut disk, "x");

    let result = extract_dir(&mut disk, &archive, &zip, "data/a/", &extract_to);
    assert!(result.is_ok());

    assert!(disk.has(&format!("{}/b/c/d/deep.txt", extract_to)));
    assert!(disk.has(&format!("{}/b/mid.txt", extract_to)));
}

#[test]
fn test_extract_dir_non_existent() {
    let (mut disk, archive, zip) = create_test_archive_with_files();
    let extract_to = temp_dir(&mut disk, "x");

    let result = extract_dir(&mut disk, &archive, &zip, "nonexistent/", &extract_to);
    assert!(result.is_ok());
    assert!(result.unwrap().is_empty());
}

#[test]
fn test_extract_dir_without_trailing_slash() {
    let (mut disk, archive, zip) = create_test_archive_with_files();
    let extract_to = temp_dir(&mut disk, "x");

    // Should still work without trailing slash
    let result = extract_dir(&mut disk, &archive, &zip, "data", &extract_to);
    assert!(result.is_ok());

    assert!(disk.has(&format!("{}/test.txt", extract_to)));
    assert!(disk.has(&format!("{}/subdir/nested.txt", extract_to)));
}

#[test]
fn test_extract_all_to_non_existent_dest() {
    let (mut disk, archive, zip) = create_test_archive_with_files();
    let extract_to = temp_dir(&mut disk, "x");
    let non_existent = format!("{}/new/dest", extract_to);

    // Should create destination directories
    let result = extract_all(&mut disk, &archive, &zip, &non_existent);
    assert!(result.is_ok());
    assert!(disk.has(&format!("{}/data/test.txt", non_existent)));
}

#[test]
fn test_extract_preserves_directory_structure() {
    let (mut disk, archive, zip) = create_test_archive_with_files();
    let extract_to = temp_dir(&mut disk, "x");

    extract_all(&mut disk, &archive, &zip, &extract_to).unwrap();

    // Verify full directory structure is preserved
    assert!(disk.is_dir(&format!("{}/meta", extract_to)));
    assert!(disk.is_dir(&format!("{}/data", extract_to)));
    assert!(disk.is_dir(&format!("{}/data/subdir", extract_to)));
    assert!(disk.is_dir(&format!("{}/code", extract_to)));
}

#[test]
fn test_extract_file_case_sensitive() {
    let (mut disk, archive, zip) = create_test_archive_with_files();
    let extract_to = temp_dir(&mut disk, "x");

    // Wrong case should fail
    let result = extract_file(&mut disk, &archive, &zip, "Data/Test.txt", &extract_to);
    assert!(result.is_err());

    // Correct case should succeed
    let result = extract_file(&mut disk, &archive, &zip, "data/test.txt", &extract_to);
    assert!(result.is_ok());
}

#[test]
fn test_extract_with_absolute_path_in_archive() {
    // An archive with an entry that names a place from the root
    let (mut disk, archive, zip) = archive_holding(&[("/etc/passwd", b"malicious content")]);
    let extract_to = temp_dir(&mut disk, "x");

    // Should extract safely within the target directory
    let result = extract_all(&mut disk, &archive, &zip, &extract_to);
    assert!(result.is_ok());

    // File should be extracted relative to the destination, not at /etc/passwd
    assert!(!disk.has("/etc/passwd") || text_at(&disk, "/etc/passwd") != "malicious content");
    assert_eq!(text_at(&disk, &format!("{}/etc/passwd", extract_to)), "malicious content");
}

#[test]
fn test_extract_dir_with_file_selection() {
    let (mut disk, archive, zip) = create_test_archive_with_files();
    let extract_to = temp_dir(&mut disk, "x");

    // Extract only from data directory
    let files = extract_dir(&mut disk, &archive, &zip, "data/", &extract_to).unwrap();

    // Should have extracted exactly 2 files
    assert_eq!(files.len(), 2);
    assert!(files.iter().any(|p| p.ends_with("test.txt")));
    assert!(files.iter().any(|p| p.ends_with("nested.txt")));

    // Code files should not be extracted
    assert!(!disk.has(&format!("{}/main.rs", extract_to)));
}

#[test]
fn test_extract_readonly_destination() {
    let (mut disk, archive, zip) = create_test_archive_with_files();
    let extract_to = temp_dir(&mut disk, "x");

    // Make destination read-only
    disk.locked.insert(extract_to.clone());

    // Should fail to extract
    let result = extract_file(&mut disk, &archive, &zip, "data/test.txt", &extract_to);
    assert!(result.is_err());

    // Restore permissions for cleanup
    disk.locked.remove(&extract_to);
}

#[test]
fn extract_file_refuses_names_that_climb() {
    let (_disk, archive, _zip) = archive_holding(&[
        ("data/../escape.txt", b"x"),
        ("..", b"x"),
        ("data/..", b"x"),
        ("../data/test.txt", b"x"),
        ("data/a..b", b"x"),
        ("data/", b""),
    ]);
    for entry in ["data/../escape.txt", "..", "data/..", "../data/test.txt"] {
        let result = archive.extract_file(entry, "/tmp/x");
        assert!(matches!(result, Err(BeadError::InvalidArchive(_))), "{}", entry);
    }
    // two dots inside a name are no climb
    assert_eq!(archive.extract_file("data/a..b", "/tmp/x").unwrap().path, "/tmp/x/a..b");
    // a directory entry has a last segment and goes to it
    let action = archive.extract_file("data/", "/tmp/x").unwrap();
    assert_eq!(action.path, "/tmp/x/data");
    assert_eq!(action.entry, "data/");
    assert_eq!(action.container, archive.path());
    assert_eq!(action.op, Op::Extract);
}

#[test]
fn extract_file_gives_the_place_under_the_destination() {
    let (_disk, archive, _zip) = create_test_archive_with_files();
    let action = archive.extract_file("data/subdir/nested.txt", "/tmp/x/").unwrap();
    assert_eq!(action.path, "/tmp/x/nested.txt");
    let action = archive.extract_file("data/subdir/nested.txt", "rel").unwrap();
    assert_eq!(action.path, "rel/nested.txt");
    assert_eq!(action.entry, "data/subdir/nested.txt");
}

#[test]
fn check_containment_wants_the_place_below_the_directory() {
    assert!(Archive::check_containment("/tmp/x/a.txt", "/tmp/x").is_ok());
    assert!(Archive::check_containment("/tmp/x", "/tmp/x").is_ok());
    assert!(Archive::check_containment("/a", "/").is_ok());
    assert!(matches!(Archive::check_containment("/tmp/xy/a.txt", "/tmp/x"), Err(BeadError::InvalidArchive(_))));
    assert!(matches!(Archive::check_containment("/etc/passwd", "/tmp/x"), Err(BeadError::InvalidArchive(_))));
}

#[test]
fn extract_all_refuses_the_whole_archive_for_one_climbing_entry() {
    let (mut disk, archive, _zip) = archive_holding(&[("data/ok.txt", b"ok"), ("data/../../evil.txt", b"x")]);
    let extract_to = temp_dir(&mut disk, "x");
    let result = archive.extract_all(&extract_to);
    assert!(matches!(result, Err(BeadError::InvalidArchive(_))));
}

#[test]
fn extract_all_skips_directories_and_strips_leading_separators() {
    let (_disk, archive, _zip) = archive_holding(&[("data/", b""), ("//data/a.txt", b"a"), ("b.txt", b"b")]);
    let plan = archive.extract_all("/tmp/x").unwrap();
    let places: Vec<(String, String)> = plan.iter().map(|a| (a.entry.clone(), a.path.clone())).collect();
    assert_eq!(
        places,
        vec![
            ("meta/bead".to_string(), "/tmp/x/meta/bead".to_string()),
            ("meta/manifest".to_string(), "/tmp/x/meta/manifest".to_string()),
            ("meta/input.map".to_string(), "/tmp/x/meta/input.map".to_string()),
            ("//data/a.txt".to_string(), "/tmp/x/data/a.txt".to_string()),
            ("b.txt".to_string(), "/tmp/x/b.txt".to_string()),
        ]
    );
    assert!(plan.iter().all(|a| a.op == Op::Extract && a.container == archive.path()));
}

#[test]
fn extract_dir_refuses_the_whole_directory_for_one_escaping_entry() {
    let (_disk, climbing, _zip) = archive_holding(&[("d/ok.txt", b"x"), ("d/../x", b"x")]);
    assert!(matches!(climbing.extract_dir("d", "/t"), Err(BeadError::InvalidArchive(_))));
    assert!(matches!(climbing.extract_dir("d/", "/t"), Err(BeadError::InvalidArchive(_))));

    let (_disk, rooted, _zip) = archive_holding(&[("data//x", b"x")]);
    assert!(matches!(rooted.extract_dir("data", "/t"), Err(BeadError::InvalidArchive(_))));
    assert!(matches!(rooted.unpack_data_to("/t"), Err(BeadError::InvalidArchive(_))));

    let (_disk, deep, _zip) = archive_holding(&[("data/a/b/../../../x", b"x"), ("data/a/..", b"x")]);
    assert!(matches!(deep.extract_dir("data/", "/t"), Err(BeadError::InvalidArchive(_))));

    // what escapes under another prefix is of no concern, and dots inside a
    // name are no climb
    let (_disk, fine, _zip) = archive_holding(&[("code/../x", b"x"), ("data/a..b", b"x"), ("data/.../c", b"x")]);
    assert_eq!(
        paths_of(&fine.extract_dir("data", "/t").unwrap()),
        vec!["/t/a..b".to_string(), "/t/.../c".to_string()]
    );
    assert!(matches!(fine.unpack_code_to("/t"), Err(BeadError::InvalidArchive(_))));

    // every place that is planned lies within the destination
    for action in fine.extract_dir("data", "/t").unwrap() {
        assert!(Archive::check_containment(&action.path, "/t").is_ok());
    }
}

#[test]
fn loading_an_input_refuses_a_payload_that_escapes() {
    let mut disk = Disk::new();
    disk.mkdir_all("/tmp/w").unwrap();
    let mut workspace = disk.create_workspace("/tmp/w/ws", "k").unwrap();
    let plan = workspace.add_input("in".to_string(), sample_spec()).unwrap();
    disk.perform(&plan, None, Some(&workspace)).unwrap();
    let (_other, archive, _zip) = archive_holding(&[("data/../../../.bead-meta/bead", b"x")]);
    assert!(matches!(workspace.load_input("in", &archive), Err(BeadError::InvalidArchive(_))));
    assert!(!workspace.is_loaded("in"));
    let newer = InputSpec::new("k".to_string(), "new".to_string(), "t".to_string());
    assert!(matches!(workspace.update_input("in", newer, &archive), Err(BeadError::InvalidArchive(_))));
    assert_eq!(workspace.get_input("in").unwrap().content_id, "content123");
    let mut other = disk.create_workspace("/tmp/w/other", "k").unwrap();
    assert!(matches!(archive.unpack_to(&mut other), Ok(_)));
}

#[test]
fn unpack_data_and_code_use_their_prefixes() {
    let (_disk, archive, _zip) = create_test_archive_with_files();
    assert_eq!(
        paths_of(&archive.unpack_data_to("/d").unwrap()),
        vec!["/d/test.txt".to_string(), "/d/subdir/nested.txt".to_string()]
    );
    assert_eq!(paths_of(&archive.unpack_code_to("/c").unwrap()), vec!["/c/main.rs".to_string()]);
}

#[test]
fn unreadable_container_fails_every_extraction_with_its_error() {
    let mut disk = Disk::new();
    disk.mkdir_all("/tmp/a").unwrap();
    disk.write("/tmp/a/broken.zip", b"not a zip").unwrap();
    let archive = disk.open_archive("/tmp/a/broken.zip", "b").unwrap();
    assert_eq!(archive.name().as_str(), "broken");
    assert!(matches!(archive.extract_dir("data/", "/x"), Err(BeadError::ZipError(_))));
    assert!(matches!(archive.extract_all("/x"), Err(BeadError::ZipError(_))));
    assert!(matches!(archive.extract_file("data/a", "/x"), Err(BeadError::ZipError(_))));
    assert!(matches!(archive.meta(), Err(BeadError::ZipError(_))));
    assert!(matches!(archive.kind(), Err(BeadError::ZipError(_))));
    assert!(matches!(archive.validate(), Err(BeadError::ZipError(_))));
    assert!(archive.inputs().is_empty());
    assert_eq!(archive.freeze_time(NOW), NOW);
}

#[test]
fn a_missing_record_is_an_invalid_archive_whatever_the_read_said() {
    let mut disk = Disk::new();
    disk.mkdir_all("/tmp/a").unwrap();
    // no `meta/bead` in the container, so reading the record failed
    disk.put_zip("/tmp/a/n.zip", Zip { meta: None, entries: vec![("meta/manifest".to_string(), b"{}".to_vec())] });
    let archive = disk.open_archive("/tmp/a/n.zip", "b").unwrap();
    assert!(matches!(archive.meta(), Err(BeadError::ZipError(_))));
    assert!(matches!(archive.validate(), Err(BeadError::InvalidArchive(_))));
    // both entries are there but the record cannot be read: the error of the read
    let mut entries = meta_entries();
    entries.push(("data/x".to_string(), b"x".to_vec()));
    disk.put_zip("/tmp/a/m.zip", Zip { meta: None, entries });
    let archive = disk.open_archive("/tmp/a/m.zip", "b").unwrap();
    assert!(matches!(archive.validate(), Err(BeadError::ZipError(_))));
}

#[test]
fn validate_wants_record_and_manifest() {
    let mut disk = Disk::new();
    disk.mkdir_all("/tmp/a").unwrap();
    let mut zip = zip_with("k", "n", STAMP, &[]);
    zip.entries.retain(|(name, _)| name != "meta/manifest");
    disk.put_zip("/tmp/a/n.zip", zip);
    let archive = disk.open_archive("/tmp/a/n.zip", "b").unwrap();
    assert!(matches!(archive.validate(), Err(BeadError::InvalidArchive(_))));
}

#[test]
fn cached_fields_come_before_the_container() {
    let cached = frozen_meta("cached-kind", "n", "20240116T120000000000+0000");
    let facts = FileFacts {
        modified: None,
        cache: ArchiveCache { meta: Some(cached), content_id: Some("abc123".to_string()) },
        container: Ok(Container { entries: vec![], meta: Ok(frozen_meta("stored-kind", "n", STAMP)) }),
    };
    let archive = Archive::open("/b/n_x.zip", "b", Some(facts)).unwrap();
    assert_eq!(archive.kind().unwrap(), "cached-kind");
    assert_eq!(archive.content_id().unwrap().as_str(), "abc123");
    assert_eq!(archive.cache_path(), "/b/n_x.xmeta");
    let plan = archive.save_cache();
    assert_eq!(plan.len(), 1);
    assert_eq!(plan[0].op, Op::SaveCache);
    assert_eq!(plan[0].path, "/b/n_x.xmeta");
    assert_eq!(archive.freeze_time(NOW), Instant { secs: 1705406400, nanos: 0 });
}

#[test]
fn archive_without_cache_has_no_content_id_and_saves_nothing() {
    let (_disk, archive) = create_test_archive();
    assert!(archive.content_id().is_none());
    assert!(archive.save_cache().is_empty());
    assert_eq!(archive.freeze_time(NOW), Instant { secs: 1705320000, nanos: 0 });
    assert_eq!(archive.path(), "/tmp/a/test-bead_20240115T120000000000+0000.zip");
}

#[test]
fn open_refuses_file_names_that_give_no_bead_name() {
    let disk = {
        let mut d = Disk::new();
        d.mkdir_all("/b").unwrap();
        d.write("/b/_x.zip", b"").unwrap();
        d.write("/b/.zip", b"").unwrap();
        d
    };
    assert!(matches!(disk.open_archive("/b/_x.zip", "b"), Err(BeadError::InvalidBeadName(_))));
    // a name that holds `_` is read up to it
    assert_eq!(Archive::parse_name_from_path("/b/test_bead_20240115T120000000000+0000.zip").unwrap().as_str(), "test");
    assert!(matches!(Archive::parse_name_from_path("/b/.."), Err(BeadError::InvalidArchive(_))));
    assert!(matches!(Archive::parse_name_from_path("/"), Err(BeadError::InvalidArchive(_))));
    assert!(matches!(disk.open_archive("/b/.zip", "b"), Err(BeadError::InvalidBeadName(_))));
}

#[test]
fn freezing_and_opening_again_gives_name_kind_and_freeze_time_back() {
    let mut disk = Disk::new();
    disk.mkdir_all("/tmp/w").unwrap();
    disk.mkdir_all("/tmp/box").unwrap();
    let workspace = disk.create_workspace("/tmp/w/my-bead", "K").unwrap();
    let path = "/tmp/box/my-bead_20240115T120000000000+0000.zip";
    let frozen = Archive::create(path, &workspace, STAMP.to_string(), false).unwrap();
    disk.put_zip(path, Zip { meta: Some(frozen.meta().unwrap().clone()), entries: meta_entries() });
    let again = disk.open_archive(path, "box").unwrap();
    assert_eq!(again.kind().unwrap(), "K");
    assert_eq!(again.name().as_str(), "my-bead");
    assert_eq!(again.meta().unwrap().freeze_time, Some(STAMP.to_string()));
    assert_eq!(again.meta().unwrap().freeze_name, Some("my-bead".to_string()));
    assert!(again.validate().is_ok());
    assert_eq!(frozen.box_name(), "");
    assert!(matches!(Archive::create(path, &workspace, STAMP.to_string(), true), Err(BeadError::AlreadyExists(_))));
}

#[test]
fn unpack_to_replaces_the_record_of_the_workspace() {
    let (mut disk, archive, zip) = create_test_archive_with_files();
    disk.mkdir_all("/tmp/w").unwrap();
    let mut workspace = disk.create_workspace("/tmp/w/ws", "other-kind").unwrap();
    let plan = archive.unpack_to(&mut workspace).unwrap();
    disk.perform(&plan, Some(&zip), Some(&workspace)).unwrap();
    assert_eq!(workspace.kind(), "test-kind");
    assert_eq!(text_at(&disk, "/tmp/w/ws/main.rs"), "fn main() {}");
}

#[test]
fn extraction_into_the_empty_destination_goes_by_the_names_alone() {
    let (mut disk, archive, zip) = create_test_archive_with_files();
    let expected = vec!["test.txt".to_string(), "subdir/nested.txt".to_string()];
    assert_eq!(paths_of(&archive.extract_dir("data/", "").unwrap()), expected);
    assert_eq!(paths_of(&archive.extract_dir("data", "").unwrap()), expected);
    assert_eq!(paths_of(&archive.unpack_data_to("").unwrap()), expected);
    assert_eq!(paths_of(&archive.unpack_code_to("").unwrap()), vec!["main.rs".to_string()]);
    assert!(archive.extract_dir("nonexistent/", "").unwrap().is_empty());
    assert_eq!(archive.extract_file("data/subdir/nested.txt", "").unwrap().path, "nested.txt");
    assert_eq!(
        paths_of(&archive.extract_all("").unwrap()),
        vec![
            "meta/bead".to_string(),
            "meta/manifest".to_string(),
            "meta/input.map".to_string(),
            "data/test.txt".to_string(),
            "data/subdir/nested.txt".to_string(),
            "code/main.rs".to_string(),
        ]
    );

    // carried out, the files land in the directory in which the disk is worked on
    let plan = archive.extract_dir("data/", "").unwrap();
    disk.perform(&plan, Some(&zip), None).unwrap();
    assert_eq!(text_at(&disk, "/tmp/test.txt"), "test content");
    assert_eq!(text_at(&disk, "/tmp/subdir/nested.txt"), "nested content");

    // a name that escapes is refused here as everywhere
    let (_disk, climbing, _zip) = archive_holding(&[("data/../x", b"x")]);
    assert!(matches!(climbing.extract_dir("data/", ""), Err(BeadError::InvalidArchive(_))));
    let (_disk, rooted, _zip) = archive_holding(&[("data//etc/passwd", b"x")]);
    assert!(matches!(rooted.extract_dir("data/", ""), Err(BeadError::InvalidArchive(_))));

    // within the empty directory lies what neither starts at the root nor climbs
    assert!(Archive::check_containment("test.txt", "").is_ok());
    assert!(Archive::check_containment("subdir/nested.txt", "").is_ok());
    assert!(Archive::check_containment("", "").is_ok());
    assert!(Archive::check_containment("/etc/passwd", "").is_err());
    assert!(Archive::check_containment("../x", "").is_err());
    assert!(Archive::check_containment("a/../../x", "").is_err());
}

#[test]
fn unpacking_into_a_workspace_without_a_directory_goes_by_the_names_alone() {
    let (_disk, archive, _zip) = create_test_archive_with_files();
    let (mut workspace, _plan) = Workspace::create("", "k".to_string(), false).unwrap();
    let plan = archive.unpack_to(&mut workspace).unwrap();
    assert_eq!(paths_of(&plan), vec!["main.rs".to_string()]);
    assert_eq!(workspace.kind(), "test-kind");
}

#[test]
fn the_payload_is_the_files_under_data_in_stored_order() {
    let container = Container {
        entries: vec![
            "meta/bead".to_string(),
            "data/".to_string(),
            "data/b.txt".to_string(),
            "code/run.sh".to_string(),
            "data/sub/".to_string(),
            "data/sub/a.txt".to_string(),
            "database.txt".to_string(),
        ],
        meta: Ok(frozen_meta("k", "n", STAMP)),
    };
    assert_eq!(container.payload(), vec!["data/b.txt".to_string(), "data/sub/a.txt".to_string()]);
    let empty = Container { entries: vec!["meta/bead".to_string()], meta: Ok(frozen_meta("k", "n", STAMP)) };
    assert!(empty.payload().is_empty());
}
