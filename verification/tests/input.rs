#![allow(dead_code)]

use std::collections::{BTreeMap, BTreeSet};

use bead::archive::{Archive, ArchiveCache, Container, FileFacts};
use bead::box_store::{Box, BoxEntry, DirScan, UnionBox};
use bead::error::BeadError;
use bead::meta::{BeadMeta, BeadName, InputSpec};
use bead::plan::{FsAction, Op};
use bead::table::Table;
use bead::timestamp::Instant;
use bead::workspace::{InputArea, Workspace, WorkspaceScan};

/// What a container file holds.
#[derive(Clone)]
struct Zip {
    meta: Option<BeadMeta>,
    entries: Vec<(String, Vec<u8>)>,
}

/// A directory tree kept in memory, on which the plans of the library are
/// carried out the way a disk would carry them out.
struct Disk {
    dirs: BTreeSet<String>,
    files: BTreeMap<String, Vec<u8>>,
    locked: BTreeSet<String>,
    metas: BTreeMap<String, BeadMeta>,
    maps: BTreeMap<String, Vec<(String, String)>>,
    zips: BTreeMap<String, Zip>,
    content_ids: BTreeMap<String, String>,
    modified: BTreeMap<String, Instant>,
    clock: i64,
}

fn parent_of(path: &str) -> Option<String> {
    let cut = path.rfind('/')?;
    if cut == 0 {
        if path.len() > 1 { Some("/".to_string()) } else { None }
    } else {
        Some(path[..cut].to_string())
    }
}

impl Disk {
    fn new() -> Disk {
        let mut dirs = BTreeSet::new();
        dirs.insert("/".to_string());
        dirs.insert("/tmp".to_string());
        Disk {
            dirs,
            files: BTreeMap::new(),
            locked: BTreeSet::new(),
            metas: BTreeMap::new(),
            maps: BTreeMap::new(),
            zips: BTreeMap::new(),
            content_ids: BTreeMap::new(),
            modified: BTreeMap::new(),
            clock: 1_700_000_000,
        }
    }

    fn is_dir(&self, path: &str) -> bool {
        self.dirs.contains(path)
    }

    fn is_file(&self, path: &str) -> bool {
        self.files.contains_key(path)
    }

    fn has(&self, path: &str) -> bool {
        self.is_dir(path) || self.is_file(path)
    }

    fn children(&self, dir: &str) -> Vec<String> {
        let prefix = if dir.ends_with('/') { dir.to_string() } else { format!("{}/", dir) };
        let mut found = Vec::new();
        for p in self.dirs.iter().chain(self.files.keys()) {
            if p.starts_with(&prefix) && p.len() > prefix.len() && !p[prefix.len()..].contains('/') {
                found.push(p.clone());
            }
        }
        found.sort();
        found
    }

    /// The path itself and every directory and file that lies in it.
    fn below(&self, path: &str) -> Vec<String> {
        let prefix = format!("{}/", path);
        let mut found = vec![path.to_string()];
        for p in self.dirs.iter().chain(self.files.keys()) {
            if p.starts_with(&prefix) {
                found.push(p.clone());
            }
        }
        found
    }

    fn mkdir(&mut self, path: &str) -> Result<(), String> {
        if self.has(path) {
            return Err(format!("exists: {}", path));
        }
        let parent = parent_of(path).ok_or("no parent")?;
        if !self.is_dir(&parent) {
            return Err(format!("no such directory: {}", parent));
        }
        if self.locked.contains(&parent) {
            return Err(format!("permission denied: {}", parent));
        }
        self.dirs.insert(path.to_string());
        Ok(())
    }

    fn mkdir_all(&mut self, path: &str) -> Result<(), String> {
        if self.is_dir(path) {
            return Ok(());
        }
        if let Some(parent) = parent_of(path) {
            self.mkdir_all(&parent)?;
        }
        self.mkdir(path)
    }

    fn write(&mut self, path: &str, data: &[u8]) -> Result<(), String> {
        let parent = parent_of(path).ok_or("no parent")?;
        if !self.is_dir(&parent) {
            return Err(format!("no such directory: {}", parent));
        }
        if self.is_dir(path) {
            return Err(format!("is a directory: {}", path));
        }
        if !self.is_file(path) && self.locked.contains(&parent) {
            return Err(format!("permission denied: {}", parent));
        }
        if self.is_file(path) && self.locked.contains(path) {
            return Err(format!("permission denied: {}", path));
        }
        self.files.insert(path.to_string(), data.to_vec());
        self.clock += 1;
        self.modified.insert(path.to_string(), Instant { secs: self.clock, nanos: 0 });
        Ok(())
    }

    fn remove_all(&mut self, path: &str) -> Result<(), String> {
        if !self.is_dir(path) {
            return Err(format!("no such directory: {}", path));
        }
        let below = format!("{}/", path);
        let inside: Vec<String> =
            self.dirs.iter().filter(|d| d.as_str() == path || d.starts_with(&below)).cloned().collect();
        for d in &inside {
            if self.locked.contains(d) && !self.children(d).is_empty() {
                return Err(format!("permission denied: {}", d));
            }
        }
        for d in &inside {
            self.dirs.remove(d);
            self.locked.remove(d);
        }
        let gone: Vec<String> = self.files.keys().filter(|f| f.starts_with(&below)).cloned().collect();
        for f in gone {
            self.locked.remove(&f);
            self.files.remove(&f);
            self.metas.remove(&f);
            self.maps.remove(&f);
        }
        Ok(())
    }

    /// Carries a plan out, action by action, and stops at the first that fails.
    /// A path that does not start at the root is taken from `/tmp`, the
    /// directory in which the disk is worked on.
    fn perform(&mut self, plan: &[FsAction], zip: Option<&Zip>, ws: Option<&Workspace>) -> Result<(), String> {
        for action in plan {
            let resolved =
                if action.path.starts_with('/') { action.path.clone() } else { format!("/tmp/{}", action.path) };
            let path = resolved.as_str();
            match action.op {
                Op::CreateDirAll => self.mkdir_all(path)?,
                Op::CreateDir => self.mkdir(path)?,
                Op::RemoveDirAll => self.remove_all(path)?,
                Op::RemoveFile => {
                    self.files.remove(path);
                    self.maps.remove(path);
                }
                Op::Lock => {
                    if !self.is_dir(path) {
                        return Err(format!("no such directory: {}", path));
                    }
                    for inside in self.below(path) {
                        self.locked.insert(inside);
                    }
                }
                Op::Unlock => {
                    for inside in self.below(path) {
                        self.locked.remove(&inside);
                    }
                }
                Op::UnlockDir => {
                    self.locked.remove(path);
                }
                Op::SaveMeta => {
                    let ws = ws.ok_or("no workspace to save")?;
                    self.write(path, b"meta")?;
                    self.metas.insert(path.to_string(), ws.meta.clone());
                }
                Op::SaveInputMap => {
                    let ws = ws.ok_or("no workspace to save")?;
                    self.write(path, b"map")?;
                    let mut pairs = Vec::new();
                    for i in 0..ws.input_map.len() {
                        pairs.push((ws.input_map.key_at(i).to_string(), ws.input_map.value_at(i).clone()));
                    }
                    self.maps.insert(path.to_string(), pairs);
                }
                Op::SaveCache => self.write(path, b"cache")?,
                Op::Extract => {
                    let zip = self.zips.get(&action.container).or(zip).ok_or("no container to extract from")?;
                    let data = zip
                        .entries
                        .iter()
                        .find(|(name, _)| name == &action.entry)
                        .map(|(_, data)| data.clone())
                        .ok_or("no such entry")?;
                    if let Some(parent) = parent_of(path) {
                        self.mkdir_all(&parent)?;
                    }
                    self.write(path, &data)?;
                }
            }
        }
        Ok(())
    }

    /// Writes a container file.
    fn put_zip(&mut self, path: &str, zip: Zip) {
        self.write(path, b"zip").unwrap();
        self.zips.insert(path.to_string(), zip);
    }

    /// What a caller finds out about the file at `path`.
    fn facts(&self, path: &str) -> Option<FileFacts> {
        if !self.has(path) {
            return None;
        }
        let container = match self.zips.get(path) {
            Some(zip) => Ok(Container {
                entries: zip.entries.iter().map(|(name, _)| name.clone()).collect(),
                meta: match &zip.meta {
                    Some(meta) => Ok(meta.clone()),
                    None => Err(BeadError::ZipError("specified file not found in archive".to_string())),
                },
            }),
            None => Err(BeadError::ZipError("invalid Zip archive".to_string())),
        };
        Some(FileFacts {
            modified: self.modified.get(path).copied(),
            cache: ArchiveCache { meta: None, content_id: self.content_ids.get(path).cloned() },
            container,
        })
    }

    /// Opens the archive at `path` as a caller would.
    fn open_archive(&self, path: &str, box_name: &str) -> Result<Archive, BeadError> {
        Archive::open(path, box_name, self.facts(path))
    }

    /// The listing of a box directory.
    fn scan_dir(&self, dir: &str) -> DirScan {
        let mut entries = Vec::new();
        if self.is_dir(dir) {
            for path in self.children(dir) {
                if let Some(facts) = self.facts(&path) {
                    entries.push(BoxEntry { path, facts });
                }
            }
        }
        DirScan { exists: self.has(dir), is_dir: self.is_dir(dir), entries }
    }

    /// What a caller finds in a directory that may be a workspace.
    fn scan_workspace(&self, dir: &str) -> WorkspaceScan {
        let input = format!("{}/input", dir);
        let input_area = if self.is_dir(&input) {
            let mut slots = Table::new();
            for slot in self.children(&input) {
                if self.is_dir(&slot) {
                    slots.insert(slot[input.len() + 1..].to_string(), self.locked.contains(&slot));
                }
            }
            Some(InputArea { locked: self.locked.contains(&input), slots })
        } else {
            None
        };
        let meta_path = format!("{}/.bead-meta/bead", dir);
        let map_path = format!("{}/.bead-meta/input.map", dir);
        WorkspaceScan {
            input_area,
            output_dir: self.is_dir(&format!("{}/output", dir)),
            temp_dir: self.is_dir(&format!("{}/temp", dir)),
            meta: if self.is_file(&meta_path) {
                Some(match self.metas.get(&meta_path) {
                    Some(meta) => Ok(meta.clone()),
                    None => Err(BeadError::JsonError("expected value".to_string())),
                })
            } else {
                None
            },
            input_map: self.maps.get(&map_path).map(|pairs| {
                let mut map = Table::new();
                for (k, v) in pairs {
                    map.insert(k.clone(), v.clone());
                }
                Ok(map)
            }),
        }
    }

    fn open_workspace(&self, dir: &str) -> Result<Workspace, BeadError> {
        Workspace::open(dir, self.scan_workspace(dir))
    }

    fn create_workspace(&mut self, dir: &str, kind: &str) -> Result<Workspace, BeadError> {
        let (workspace, plan) = Workspace::create(dir, kind.to_string(), self.has(dir))?;
        self.perform(&plan, None, Some(&workspace)).unwrap();
        Ok(workspace)
    }
}

const STAMP: &str = "20240115T120000000000+0000";

const NOW: Instant = Instant { secs: 1_800_000_000, nanos: 0 };

fn frozen_meta(kind: &str, name: &str, timestamp: &str) -> BeadMeta {
    BeadMeta::new_frozen(kind.to_string(), BeadName::new(name).unwrap(), timestamp.to_string())
}

fn meta_entries() -> Vec<(String, Vec<u8>)> {
    vec![
        ("meta/bead".to_string(), b"{}".to_vec()),
        ("meta/manifest".to_string(), b"{}".to_vec()),
        ("meta/input.map".to_string(), b"{}".to_vec()),
    ]
}

fn zip_with(kind: &str, name: &str, timestamp: &str, files: &[(&str, &[u8])]) -> Zip {
    let mut entries = meta_entries();
    for (path, data) in files {
        entries.push((path.to_string(), data.to_vec()));
    }
    Zip { meta: Some(frozen_meta(kind, name, timestamp)), entries }
}

fn sample_spec() -> InputSpec {
    InputSpec::new("input-kind".to_string(), "content123".to_string(), STAMP.to_string())
}

fn paths_of(plan: &[FsAction]) -> Vec<String> {
    plan.iter().map(|a| a.path.clone()).collect()
}

use bead::input::Input;
use bead::meta::InputName;

fn create_test_input() -> (Disk, Input) {
    let mut disk = Disk::new();
    disk.mkdir_all("/tmp/t").unwrap();
    let name = InputName::new("test-input").unwrap();
    let spec = sample_spec();

    let input = Input::new(name, spec, "/tmp/t", disk.has("/tmp/t/input/test-input"));
    (disk, input)
}

#[test]
fn test_input_creation() {
    let (_disk, input) = create_test_input();

    assert_eq!(input.name.as_str(), "test-input");
    assert_eq!(input.spec.kind, "input-kind");
    assert_eq!(input.spec.content_id, "content123");
    assert!(!input.loaded);
}

#[test]
fn test_input_matches_spec() {
    let (_disk, input) = create_test_input();

    let matching_spec =
        InputSpec::new("input-kind".to_string(), "content123".to_string(), "20240115T120000000000+0000".to_string());
    assert!(input.matches_spec(&matching_spec));

    let different_spec =
        InputSpec::new("input-kind".to_string(), "different123".to_string(), "20240115T120000000000+0000".to_string());
    assert!(!input.matches_spec(&different_spec));
}

#[test]
fn test_input_needs_update() {
    let (_disk, input) = create_test_input();

    let newer_spec = InputSpec::new(
        "input-kind".to_string(),
        "content123".to_string(),
        "20240116T120000000000+0000".to_string(), // Different timestamp
    );
    assert!(input.needs_update(&newer_spec));

    let same_spec = InputSpec::new(
        "input-kind".to_string(),
        "content123".to_string(),
        "20240115T120000000000+0000".to_string(), // Same timestamp
    );
    assert!(!input.needs_update(&same_spec));
}

#[test]
fn a_slot_loads_locks_unloads_and_updates() {
    let (mut disk, mut input) = create_test_input();
    assert_eq!(input.path, "/tmp/t/input/test-input");
    let zip = zip_with("k", "up", STAMP, &[("data/a.txt", b"one"), ("code/x", b"no")]);
    disk.put_zip("/tmp/t/up_1.zip", zip.clone());
    let archive = disk.open_archive("/tmp/t/up_1.zip", "b").unwrap();

    let plan = input.load(&archive).unwrap();
    let steps: Vec<(Op, &str)> = plan.iter().map(|a| (a.op, a.path.as_str())).collect();
    assert_eq!(
        steps,
        vec![
            (Op::CreateDirAll, "/tmp/t/input/test-input"),
            (Op::Extract, "/tmp/t/input/test-input/a.txt"),
            (Op::Lock, "/tmp/t/input/test-input"),
        ]
    );
    disk.perform(&plan, Some(&zip), None).unwrap();
    assert!(input.loaded);
    assert!(input.load(&archive).unwrap().is_empty());

    let newer = InputSpec::new("k".to_string(), "new".to_string(), "t2".to_string());
    let plan = input.update(newer, &archive).unwrap();
    assert_eq!(plan.len(), 5);
    assert_eq!(plan[0].op, Op::Unlock);
    assert_eq!(plan[1].op, Op::RemoveDirAll);
    disk.perform(&plan, Some(&zip), None).unwrap();
    assert_eq!(input.spec.content_id, "new");
    assert!(input.loaded);

    let plan = input.unload();
    assert_eq!(plan.len(), 2);
    disk.perform(&plan, None, None).unwrap();
    assert!(!input.loaded);
    assert!(!disk.has("/tmp/t/input/test-input"));
    assert!(input.unload().is_empty());

    disk.write("/tmp/t/junk.zip", b"junk").unwrap();
    let broken = disk.open_archive("/tmp/t/junk.zip", "b").unwrap();
    assert!(matches!(input.load(&broken), Err(BeadError::ZipError(_))));
    let other = InputSpec::new("k".to_string(), "other".to_string(), "t3".to_string());
    assert!(matches!(input.update(other, &broken), Err(BeadError::ZipError(_))));
    assert_eq!(input.spec.content_id, "new");
    assert!(!input.loaded);
}

#[test]
fn a_slot_refuses_a_payload_that_escapes_and_can_be_copied() {
    let (mut disk, mut input) = create_test_input();
    let zip = zip_with("k", "up", STAMP, &[("data/../x", b"one")]);
    disk.put_zip("/tmp/t/up_1.zip", zip);
    let archive = disk.open_archive("/tmp/t/up_1.zip", "b").unwrap();
    assert!(matches!(input.load(&archive), Err(BeadError::InvalidArchive(_))));
    let other = InputSpec::new("k".to_string(), "other".to_string(), "t3".to_string());
    assert!(matches!(input.update(other, &archive), Err(BeadError::InvalidArchive(_))));
    assert_eq!(input.spec.content_id, "content123");
    let copy = input.clone();
    assert_eq!(copy.name.as_str(), "test-input");
    assert_eq!(copy.spec, input.spec);
    assert_eq!(copy.path, input.path);
    assert_eq!(copy.loaded, input.loaded);
}
