//! A frozen bead: one packed container on disk, as the caller found it.
//!
//! An `Archive` never reads the container. It holds what was read from it (the
//! names of its entries and its metadata record), what the side-car cache file
//! held, and when the file was last modified. From these it answers questions
//! and lays out where each entry goes when the container is unpacked.

pub mod layout;

use vstd::prelude::*;
use vstd::utf8::encode_utf8;
use crate::box_store::lemma_filter_step;
use crate::error::{follows, BeadError, ErrorKind, ErrorView};
use crate::meta::{valid_name, BeadMeta, BeadName, ContentId, InputSpec, InputSpecView, MetaView};
use crate::paths::{
    climbs, escapes, escaping, file_name, file_name_of, has_parent_segment, is_within, join, joined,
    lemma_file_name_is_segment, lemma_file_name_of_joined, lemma_join_stays_inside, lemma_no_dots_no_parent,
    lies_within, placed_under, replace_extension, with_extension,
};
use crate::plan::{act, extraction, plan_follows, ActionView, FsAction, Op};
use crate::text::{
    catenate, chars_of, contains, ends_with, find_char, first_index, has_prefix, has_sub, has_suffix, lemma_first_index,
    lemma_first_index_is, same_text, starts_with, string_of,
};
use crate::workspace::{step_follows, Step, Workspace, WorkspaceView};
use crate::timestamp::{parse_timestamp, parsed, Instant};

verus! {

/// Fields of an archive that are costly to have, as the side-car cache file
/// held them or as the caller computed them from the container: kept so that
/// the container need not be opened for them again.
#[derive(Debug)]
pub struct ArchiveCache {
    pub meta: Option<BeadMeta>,
    pub content_id: Option<String>,
}

/// What was read from a container: the names of its entries, in the order in
/// which they are stored, and its metadata record or why it could not be had.
#[derive(Debug)]
pub struct Container {
    pub entries: Vec<String>,
    pub meta: Result<BeadMeta, BeadError>,
}

/// What the caller found out about one file: when it was last modified, if
/// that could be told; its cache, empty where there is none; and its container,
/// or why it could not be opened.
#[derive(Debug)]
pub struct FileFacts {
    pub modified: Option<Instant>,
    pub cache: ArchiveCache,
    pub container: Result<Container, BeadError>,
}

/// A cache as plain values.
pub struct CacheView {
    pub meta: Option<MetaView>,
    pub content_id: Option<Seq<char>>,
}

/// A container as plain values.
pub struct ContainerView {
    pub entries: Seq<Seq<char>>,
    pub meta: Result<MetaView, ErrorView>,
}

/// The facts about a file as plain values.
pub struct FactsView {
    pub modified: Option<Instant>,
    pub cache: CacheView,
    pub container: Result<ContainerView, ErrorView>,
}

/// An archive as plain values.
pub struct ArchiveView {
    pub path: Seq<char>,
    pub box_name: Seq<char>,
    pub name: Seq<char>,
    pub cache_path: Seq<char>,
    pub facts: FactsView,
}

impl View for ArchiveCache {
    type V = CacheView;

    open spec fn view(&self) -> CacheView {
        CacheView {
            meta: match self.meta {
                Some(m) => Some(m@),
                None => None,
            },
            content_id: match self.content_id {
                Some(c) => Some(c@),
                None => None,
            },
        }
    }
}

impl View for Container {
    type V = ContainerView;

    open spec fn view(&self) -> ContainerView {
        ContainerView {
            entries: self.entries.deep_view(),
            meta: match self.meta {
                Ok(m) => Ok(m@),
                Err(e) => Err(e@),
            },
        }
    }
}

impl View for FileFacts {
    type V = FactsView;

    open spec fn view(&self) -> FactsView {
        FactsView {
            modified: self.modified,
            cache: self.cache@,
            container: match self.container {
                Ok(c) => Ok(c@),
                Err(e) => Err(e@),
            },
        }
    }
}

/// A copy of a list of names.
pub fn clone_names(v: &Vec<String>) -> (c: Vec<String>)
    ensures
        c.deep_view() == v.deep_view(),
{
    let mut c: Vec<String> = Vec::new();
    let mut i: usize = 0;
    while i < v.len()
        invariant
            i <= v@.len(),
            c@.len() == i,
            forall|j: int| 0 <= j < i ==> c@[j]@ == v@[j]@,
        decreases v@.len() - i,
    {
        c.push(v[i].clone());
        i += 1;
    }
    c
}

impl Clone for ArchiveCache {
    fn clone(&self) -> (c: Self)
        ensures
            c@ == self@,
    {
        ArchiveCache {
            meta: match &self.meta {
                Some(m) => Some(m.clone()),
                None => None,
            },
            content_id: match &self.content_id {
                Some(s) => Some(s.clone()),
                None => None,
            },
        }
    }
}

impl Clone for Container {
    fn clone(&self) -> (c: Self)
        ensures
            c@ == self@,
    {
        Container {
            entries: clone_names(&self.entries),
            meta: match &self.meta {
                Ok(m) => Ok(m.clone()),
                Err(e) => Err(e.clone()),
            },
        }
    }
}

impl Clone for FileFacts {
    fn clone(&self) -> (c: Self)
        ensures
            c@ == self@,
    {
        FileFacts {
            modified: self.modified,
            cache: self.cache.clone(),
            container: match &self.container {
                Ok(c) => Ok(c.clone()),
                Err(e) => Err(e.clone()),
            },
        }
    }
}

impl Container {
    /// The names of the files of the payload, in the order in which they are
    /// stored. The caller hashes them to have the content id of the bead.
    pub fn payload(&self) -> (names: Vec<String>)
        ensures
            names.deep_view() == payload_of(self@.entries),
    {
        let prefix = chars_of("data/");
        let slash = chars_of("/");
        let mut names: Vec<String> = Vec::new();
        let mut i: usize = 0;
        let ghost wanted = |e: Seq<char>| is_file_under(e, "data/"@);
        assert(self.entries.deep_view().take(0).filter(wanted) =~= Seq::<Seq<char>>::empty()) by {
            reveal(Seq::filter);
        }
        while i < self.entries.len()
            invariant
                i <= self.entries@.len(),
                prefix@ == "data/"@,
                slash@ == "/"@,
                wanted == |e: Seq<char>| is_file_under(e, "data/"@),
                names.deep_view() == self.entries.deep_view().take(i as int).filter(wanted),
            decreases self.entries@.len() - i,
        {
            proof {
                lemma_filter_step(self.entries.deep_view(), i as int, wanted);
            }
            let ghost before = names.deep_view();
            let name = chars_of(self.entries[i].as_str());
            if starts_with(&name, &prefix) && !ends_with(&name, &slash) {
                names.push(self.entries[i].clone());
                assert(names.deep_view() =~= before.push(self.entries[i as int]@));
            }
            i += 1;
        }
        assert(self.entries.deep_view().take(i as int) =~= self.entries.deep_view());
        names
    }
}

impl ArchiveCache {
    /// The cache of a file that has none.
    pub fn empty() -> (c: ArchiveCache)
        ensures
            c@ == (CacheView { meta: None, content_id: None }),
    {
        ArchiveCache { meta: None, content_id: None }
    }

    /// Whether the cache holds nothing.
    pub fn is_empty(&self) -> (b: bool)
        ensures
            b == (self@.meta is None && self@.content_id is None),
    {
        self.meta.is_none() && self.content_id.is_none()
    }
}

/// The name that the file name of an archive gives: the file name without a
/// final `.zip`, up to its first `_`. `None` where the path has no file name.
pub open spec fn name_in_path(path: Seq<char>) -> Option<Seq<char>> {
    match file_name_of(path) {
        None => None,
        Some(f) => {
            let stem = if has_suffix(f, ".zip"@) { f.take(f.len() - 4) } else { f };
            Some(stem.take(first_index(stem, '_')))
        },
    }
}

/// The bead name of the archive at `path`, or the kind of error where it has none.
pub open spec fn parsed_name(path: Seq<char>) -> Result<Seq<char>, ErrorKind> {
    match name_in_path(path) {
        None => Err(ErrorKind::InvalidArchive),
        Some(n) => if valid_name(n) { Ok(n) } else { Err(ErrorKind::InvalidBeadName) },
    }
}

/// The archive that opening `path` gives, with `facts` being what was found
/// there and `None` standing for a file that is not there.
pub open spec fn opened(path: Seq<char>, box_name: Seq<char>, facts: Option<FactsView>) -> Result<ArchiveView, ErrorKind> {
    match facts {
        None => Err(ErrorKind::BeadNotFound),
        Some(f) => match parsed_name(path) {
            Err(k) => Err(k),
            Ok(name) => Ok(
                ArchiveView { path, box_name, name, cache_path: with_extension(path, "xmeta"@), facts: f },
            ),
        },
    }
}

/// The file name under which the bead `name` frozen at `freeze_time` is stored.
pub open spec fn archive_file_name(name: Seq<char>, freeze_time: Seq<char>) -> Seq<char> {
    name + "_"@ + freeze_time + ".zip"@
}

/// The entries of a container just frozen.
pub open spec fn frozen_entries() -> Seq<Seq<char>> {
    seq!["meta/bead"@, "meta/manifest"@, "meta/input.map"@]
}

/// The archive that freezing the workspace `w` at `freeze_time` gives: named
/// after the directory of the workspace, or `unnamed` where that gives no
/// name; holding the record of the workspace with the freeze time and the
/// name written into it. Refused where a file is at `path` already, and where
/// the name is no bead name.
pub open spec fn created(path: Seq<char>, w: WorkspaceView, freeze_time: Seq<char>, exists: bool) -> Result<
    ArchiveView,
    ErrorKind,
> {
    if exists {
        Err(ErrorKind::AlreadyExists)
    } else {
        let name = match file_name_of(w.directory) {
            Some(n) => n,
            None => "unnamed"@,
        };
        if !valid_name(name) {
            Err(ErrorKind::InvalidBeadName)
        } else {
            Ok(
                ArchiveView {
                    path,
                    box_name: Seq::empty(),
                    name,
                    cache_path: with_extension(path, "xmeta"@),
                    facts: FactsView {
                        modified: None,
                        cache: CacheView { meta: None, content_id: None },
                        container: Ok(
                            ContainerView {
                                entries: frozen_entries(),
                                meta: Ok(
                                    MetaView { freeze_time: Some(freeze_time), freeze_name: Some(name), ..w.meta },
                                ),
                            },
                        ),
                    },
                },
            )
        }
    }
}

/// Unpacking an archive into the workspace `w`: refused where the container
/// cannot be opened or the record cannot be had; else the code is extracted
/// into the directory of the workspace, and the record of the archive becomes
/// that of the workspace.
pub open spec fn unpacked(a: ArchiveView, w: WorkspaceView) -> Step {
    match dir_plan(a, "code/"@, w.directory) {
        Err(k) => Err(k),
        Ok(files) => match meta_of(a.facts) {
            Err(e) => Err(e.kind),
            Ok(m) => Ok((WorkspaceView { meta: m, ..w }, files)),
        },
    }
}

/// The file name of a stored archive gives back the name of the bead, as long
/// as that name holds no `_`: the name is read up to the first `_`, so a name
/// with one in it comes back cut short.
pub proof fn lemma_stored_name_is_read_back(location: Seq<char>, name: Seq<char>, freeze_time: Seq<char>)
    requires
        valid_name(name),
        !name.contains('_'),
        !freeze_time.contains('/'),
    ensures
        file_name_of(joined(location, archive_file_name(name, freeze_time))) == Some(
            archive_file_name(name, freeze_time),
        ),
        parsed_name(joined(location, archive_file_name(name, freeze_time))) == Ok::<Seq<char>, ErrorKind>(name),
{
    reveal_strlit("_");
    reveal_strlit(".zip");
    let file = archive_file_name(name, freeze_time);
    assert forall|k: int| 0 <= k < file.len() implies file[k] != '/' by {}
    lemma_file_name_of_joined(location, file);
    assert(file.subrange(file.len() - 4, file.len() as int) =~= ".zip"@);
    let stem = file.take(file.len() - 4);
    assert forall|j: int| 0 <= j < name.len() implies stem[j] != '_' by {}
    lemma_first_index_is(stem, '_', name.len() as int);
    assert(stem.take(name.len() as int) =~= name);
}

/// Freezing and opening again: an archive frozen from a workspace of kind K,
/// stored under the name N of the workspace and the freeze time T, and then
/// opened from where it was stored, has the name N, the kind K and the freeze
/// time T. This holds for names without `_`.
pub proof fn lemma_freeze_round_trip(location: Seq<char>, box_name: Seq<char>, w: WorkspaceView, freeze_time: Seq<char>)
    requires
        file_name_of(w.directory) is Some,
        valid_name(file_name_of(w.directory)->Some_0),
        !file_name_of(w.directory)->Some_0.contains('_'),
        !freeze_time.contains('/'),
    ensures
        ({
            let name = file_name_of(w.directory)->Some_0;
            let path = joined(location, archive_file_name(name, freeze_time));
            let frozen = created(path, w, freeze_time, false);
            let again = opened(path, box_name, Some(frozen->Ok_0.facts));
            &&& frozen is Ok
            &&& again is Ok
            &&& again->Ok_0.name == name
            &&& meta_of(again->Ok_0.facts) is Ok
            &&& meta_of(again->Ok_0.facts)->Ok_0.kind == w.meta.kind
            &&& meta_of(again->Ok_0.facts)->Ok_0.freeze_time == Some(freeze_time)
        }),
{
    lemma_stored_name_is_read_back(location, file_name_of(w.directory)->Some_0, freeze_time);
}

/// The metadata record of an archive: the cached one where the cache has one,
/// else the one read from the container, else the error that stood in the way.
pub open spec fn meta_of(f: FactsView) -> Result<MetaView, ErrorView> {
    match f.cache.meta {
        Some(m) => Ok(m),
        None => match f.container {
            Ok(c) => c.meta,
            Err(e) => Err(e),
        },
    }
}

/// The content id of an archive, where one is known: the one that the facts
/// about its file carry. The library never makes an id up.
pub open spec fn content_id_of(f: FactsView) -> Option<Seq<char>> {
    f.cache.content_id
}

/// The payload of a container: its entries that are files under `data/`, in
/// the order in which they are stored. The content id of a bead is the digest
/// over these files.
pub open spec fn payload_of(entries: Seq<Seq<char>>) -> Seq<Seq<char>> {
    entries.filter(|e: Seq<char>| is_file_under(e, "data/"@))
}

/// The freeze time of an archive: what its metadata record says, or `now`
/// where the record cannot be had, names no time, or names one that cannot be
/// parsed.
pub open spec fn freeze_time_of(f: FactsView, now: Instant) -> Instant {
    match meta_of(f) {
        Ok(m) => match m.freeze_time {
            Some(t) => match parsed(encode_utf8(t)) {
                Some(at) => at,
                None => now,
            },
            None => now,
        },
        Err(_) => now,
    }
}

/// The specifications of the inputs of an archive, in the order of the
/// record; none where the record cannot be had.
pub open spec fn inputs_of(f: FactsView) -> Seq<InputSpecView> {
    match meta_of(f) {
        Ok(m) => Seq::new(m.inputs.len(), |i: int| m.inputs[i].1),
        Err(_) => Seq::empty(),
    }
}

/// Whether an archive is whole: its container can be opened, the container
/// holds both the record and the manifest, and the record can be had. A
/// container that lacks one of the two entries is an `InvalidArchive`,
/// whatever else went wrong with it.
pub open spec fn validated(f: FactsView) -> Result<(), ErrorKind> {
    match f.container {
        Err(e) => Err(e.kind),
        Ok(c) => if !c.entries.contains("meta/bead"@) || !c.entries.contains("meta/manifest"@) {
            Err(ErrorKind::InvalidArchive)
        } else {
            match meta_of(f) {
                Err(e) => Err(e.kind),
                Ok(_) => Ok(()),
            }
        },
    }
}

/// `prefix` made to end in a separator.
pub open spec fn as_dir_prefix(prefix: Seq<char>) -> Seq<char> {
    if has_suffix(prefix, "/"@) {
        prefix
    } else {
        prefix + "/"@
    }
}

/// The entry lies under `prefix` and is not itself a directory.
pub open spec fn is_file_under(entry: Seq<char>, prefix: Seq<char>) -> bool {
    has_prefix(entry, prefix) && !has_suffix(entry, "/"@)
}

/// Where the entry `e`, a file under `prefix`, goes when the directory is
/// extracted to `dest`: to `dest` joined with what follows the prefix. `None`
/// where what follows the prefix escapes, by a segment `..` or by starting at
/// the root; the destination refuses nothing.
pub open spec fn place_under(e: Seq<char>, prefix: Seq<char>, dest: Seq<char>) -> Option<Seq<char>> {
    let rel = e.skip(prefix.len() as int);
    if escapes(rel) {
        None
    } else {
        Some(joined(dest, rel))
    }
}

/// One extraction for each entry that is a file under `prefix`, in the order
/// of the entries; `None` as soon as one of them has no place to go.
pub open spec fn extractions_under(
    container: Seq<char>,
    entries: Seq<Seq<char>>,
    prefix: Seq<char>,
    dest: Seq<char>,
) -> Option<Seq<ActionView>>
    decreases entries.len(),
{
    if entries.len() == 0 {
        Some(Seq::empty())
    } else {
        match extractions_under(container, entries.drop_last(), prefix, dest) {
            None => None,
            Some(rest) => {
                let e = entries.last();
                if !is_file_under(e, prefix) {
                    Some(rest)
                } else {
                    match place_under(e, prefix, dest) {
                        None => None,
                        Some(d) => Some(rest.push(extraction(container, e, d))),
                    }
                }
            },
        }
    }
}

/// What extracting the directory `prefix` to `dest` comes to: refused where
/// the container cannot be opened, and with `InvalidArchive` where an entry
/// under the prefix would go outside `dest`.
pub open spec fn dir_plan(a: ArchiveView, prefix: Seq<char>, dest: Seq<char>) -> Result<Seq<ActionView>, ErrorKind> {
    match a.facts.container {
        Err(e) => Err(e.kind),
        Ok(c) => match extractions_under(a.path, c.entries, as_dir_prefix(prefix), dest) {
            Some(plan) => Ok(plan),
            None => Err(ErrorKind::InvalidArchive),
        },
    }
}

/// What extracting the one entry `entry` into `dest` comes to: refused where
/// the name has a segment `..`, where the container has no such entry, and
/// where the name has no last segment; else the entry goes to `dest` joined
/// with that last segment.
pub open spec fn file_plan(a: ArchiveView, entry: Seq<char>, dest: Seq<char>) -> Result<ActionView, ErrorKind> {
    if has_parent_segment(entry) {
        Err(ErrorKind::InvalidArchive)
    } else {
        match a.facts.container {
            Err(e) => Err(e.kind),
            Ok(c) => if !c.entries.contains(entry) {
                Err(ErrorKind::InvalidArchive)
            } else {
                match file_name_of(entry) {
                    None => Err(ErrorKind::InvalidArchive),
                    Some(n) => Ok(extraction(a.path, entry, joined(dest, n))),
                }
            },
        }
    }
}

/// `e` without the separators it starts with.
pub open spec fn without_leading(e: Seq<char>) -> Seq<char>
    decreases e.len(),
{
    if e.len() > 0 && e[0] == '/' {
        without_leading(e.drop_first())
    } else {
        e
    }
}

/// Where the entry `e` goes when everything is extracted to `dest`: to `dest`
/// joined with its name, leading separators apart. `None` where that name
/// holds `..`; the destination refuses nothing.
pub open spec fn entry_dest(e: Seq<char>, dest: Seq<char>) -> Option<Seq<char>> {
    let rel = without_leading(e);
    if has_sub(rel, ".."@) {
        None
    } else {
        Some(joined(dest, rel))
    }
}

/// One extraction for each entry that is not a directory, in the order of the
/// entries; `None` as soon as one of them has no place to go.
pub open spec fn all_extractions(container: Seq<char>, entries: Seq<Seq<char>>, dest: Seq<char>) -> Option<
    Seq<ActionView>,
>
    decreases entries.len(),
{
    if entries.len() == 0 {
        Some(Seq::empty())
    } else {
        match all_extractions(container, entries.drop_last(), dest) {
            None => None,
            Some(rest) => {
                let e = entries.last();
                if has_suffix(e, "/"@) {
                    Some(rest)
                } else {
                    match entry_dest(e, dest) {
                        None => None,
                        Some(d) => Some(rest.push(extraction(container, e, d))),
                    }
                }
            },
        }
    }
}

/// What extracting everything to `dest` comes to.
pub open spec fn all_plan(a: ArchiveView, dest: Seq<char>) -> Result<Seq<ActionView>, ErrorKind> {
    match a.facts.container {
        Err(e) => Err(e.kind),
        Ok(c) => match all_extractions(a.path, c.entries, dest) {
            Some(plan) => Ok(plan),
            None => Err(ErrorKind::InvalidArchive),
        },
    }
}

/// Once some entries have no place to go, adding entries does not help.
pub proof fn lemma_prefix_fails(container: Seq<char>, entries: Seq<Seq<char>>, k: int, dest: Seq<char>)
    requires
        0 <= k <= entries.len(),
        all_extractions(container, entries.take(k), dest) is None,
    ensures
        all_extractions(container, entries, dest) is None,
    decreases entries.len(),
{
    if k == entries.len() {
        assert(entries.take(k) =~= entries);
    } else {
        assert(entries.drop_last().take(k) =~= entries.take(k));
        lemma_prefix_fails(container, entries.drop_last(), k, dest);
    }
}

/// Extracting one entry never leaves the destination, whatever the
/// destination is: the place it is given lies within `dest`, and is `dest`
/// joined with a single segment that is neither empty nor `..`.
pub proof fn lemma_extract_file_stays_inside(a: ArchiveView, entry: Seq<char>, dest: Seq<char>)
    requires
        file_plan(a, entry, dest) is Ok,
    ensures
        lies_within(file_plan(a, entry, dest)->Ok_0.path, dest),
        placed_under(file_plan(a, entry, dest)->Ok_0.path, dest),
        file_name_of(entry) is Some,
        !escapes(file_name_of(entry)->Some_0),
        file_plan(a, entry, dest)->Ok_0.path == joined(dest, file_name_of(entry)->Some_0),
{
    lemma_file_name_is_segment(entry);
    lemma_join_stays_inside(dest, file_name_of(entry)->Some_0);
}

/// A name without the separators it starts with does not start at the root.
pub proof fn lemma_without_leading(e: Seq<char>)
    ensures
        without_leading(e).len() == 0 || without_leading(e)[0] != '/',
    decreases e.len(),
{
    if e.len() > 0 && e[0] == '/' {
        lemma_without_leading(e.drop_first());
    }
}

/// Extracting everything never leaves the destination: every place in the
/// plan lies within `dest` and was made from `dest` by going down only,
/// whatever the entries are called and whatever the destination is.
pub proof fn lemma_extract_all_stays_inside(container: Seq<char>, entries: Seq<Seq<char>>, dest: Seq<char>)
    requires
        all_extractions(container, entries, dest) is Some,
    ensures
        forall|k: int|
            0 <= k < all_extractions(container, entries, dest)->Some_0.len() ==> {
                &&& lies_within(#[trigger] all_extractions(container, entries, dest)->Some_0[k].path, dest)
                &&& placed_under(all_extractions(container, entries, dest)->Some_0[k].path, dest)
            },
    decreases entries.len(),
{
    if entries.len() > 0 {
        lemma_extract_all_stays_inside(container, entries.drop_last(), dest);
        let e = entries.last();
        if !has_suffix(e, "/"@) {
            lemma_without_leading(e);
            lemma_no_dots_no_parent(without_leading(e));
            lemma_join_stays_inside(dest, without_leading(e));
        }
    }
}

/// Once some entries under the prefix have no place to go, adding entries
/// does not help.
pub proof fn lemma_dir_prefix_fails(
    container: Seq<char>,
    entries: Seq<Seq<char>>,
    k: int,
    prefix: Seq<char>,
    dest: Seq<char>,
)
    requires
        0 <= k <= entries.len(),
        extractions_under(container, entries.take(k), prefix, dest) is None,
    ensures
        extractions_under(container, entries, prefix, dest) is None,
    decreases entries.len(),
{
    if k == entries.len() {
        assert(entries.take(k) =~= entries);
    } else {
        assert(entries.drop_last().take(k) =~= entries.take(k));
        lemma_dir_prefix_fails(container, entries.drop_last(), k, prefix, dest);
    }
}

/// Extracting a directory never leaves the destination: every place in the
/// plan lies within `dest` and was made from `dest` by going down only,
/// whatever the entries are called and whatever the destination is.
pub proof fn lemma_extract_dir_stays_inside(
    container: Seq<char>,
    entries: Seq<Seq<char>>,
    prefix: Seq<char>,
    dest: Seq<char>,
)
    requires
        extractions_under(container, entries, prefix, dest) is Some,
    ensures
        forall|k: int|
            0 <= k < extractions_under(container, entries, prefix, dest)->Some_0.len() ==> {
                &&& lies_within(#[trigger] extractions_under(container, entries, prefix, dest)->Some_0[k].path, dest)
                &&& placed_under(extractions_under(container, entries, prefix, dest)->Some_0[k].path, dest)
            },
    decreases entries.len(),
{
    if entries.len() > 0 {
        lemma_extract_dir_stays_inside(container, entries.drop_last(), prefix, dest);
        let e = entries.last();
        if is_file_under(e, prefix) {
            lemma_join_stays_inside(dest, e.skip(prefix.len() as int));
        }
    }
}

/// Extracting a directory is refused for no other reason than a name that
/// escapes: where every file under the prefix has a rest that neither climbs
/// nor starts at the root, there is a plan, whatever the destination is, the
/// empty one too, with one extraction for each of those files.
pub proof fn lemma_extract_dir_owed(container: Seq<char>, entries: Seq<Seq<char>>, prefix: Seq<char>, dest: Seq<char>)
    requires
        forall|i: int|
            0 <= i < entries.len() && is_file_under(#[trigger] entries[i], prefix) ==> !escapes(
                entries[i].skip(prefix.len() as int),
            ),
    ensures
        extractions_under(container, entries, prefix, dest) is Some,
        extractions_under(container, entries, prefix, dest)->Some_0 == entries.filter(
            |e: Seq<char>| is_file_under(e, prefix),
        ).map_values(|e: Seq<char>| extraction(container, e, joined(dest, e.skip(prefix.len() as int)))),
    decreases entries.len(),
{
    reveal(Seq::filter);
    if entries.len() == 0 {
        assert(entries.filter(|e: Seq<char>| is_file_under(e, prefix)).map_values(
            |e: Seq<char>| extraction(container, e, joined(dest, e.skip(prefix.len() as int))),
        ) =~= Seq::<ActionView>::empty());
    }
    if entries.len() > 0 {
        let kept = |e: Seq<char>| is_file_under(e, prefix);
        let placed = |e: Seq<char>| extraction(container, e, joined(dest, e.skip(prefix.len() as int)));
        assert(entries.filter(kept).map_values(placed) =~= if kept(entries.last()) {
            entries.drop_last().filter(kept).map_values(placed).push(placed(entries.last()))
        } else {
            entries.drop_last().filter(kept).map_values(placed)
        });
        assert forall|i: int| 0 <= i < entries.drop_last().len() && is_file_under(
            #[trigger] entries.drop_last()[i],
            prefix,
        ) implies !escapes(entries.drop_last()[i].skip(prefix.len() as int)) by {
            assert(entries.drop_last()[i] == entries[i]);
        }
        lemma_extract_dir_owed(container, entries.drop_last(), prefix, dest);
        let e = entries.last();
        assert(e == entries[entries.len() - 1]);
        if is_file_under(e, prefix) {
            lemma_join_stays_inside(dest, e.skip(prefix.len() as int));
        }
    }
}

/// Whether `names` holds `name`.
pub fn holds_name(names: &Vec<String>, name: &str) -> (b: bool)
    ensures
        b == names.deep_view().contains(name@),
{
    let mut i: usize = 0;
    while i < names.len()
        invariant
            i <= names@.len(),
            forall|j: int| 0 <= j < i ==> names.deep_view()[j] != name@,
        decreases names@.len() - i,
    {
        if same_text(names[i].as_str(), name) {
            assert(names.deep_view()[i as int] == name@);
            return true;
        }
        i += 1;
    }
    false
}

/// A frozen bead.
#[derive(Debug)]
pub struct Archive {
    path: String,
    box_name: String,
    name: BeadName,
    cache_path: String,
    facts: FileFacts,
}

impl View for Archive {
    type V = ArchiveView;

    closed spec fn view(&self) -> ArchiveView {
        ArchiveView {
            path: self.path@,
            box_name: self.box_name@,
            name: self.name@,
            cache_path: self.cache_path@,
            facts: self.facts@,
        }
    }
}

impl DeepView for Archive {
    type V = ArchiveView;

    open spec fn deep_view(&self) -> ArchiveView {
        self@
    }
}

impl Clone for Archive {
    fn clone(&self) -> (c: Self)
        ensures
            c@ == self@,
    {
        Archive {
            path: self.path.clone(),
            box_name: self.box_name.clone(),
            name: self.name.clone(),
            cache_path: self.cache_path.clone(),
            facts: self.facts.clone(),
        }
    }
}

impl Archive {
    /// Opens the archive at `path`, found in the box `box_name`. It fails with
    /// `BeadNotFound` where the file is not there, with `InvalidArchive` where
    /// the path has no file name, and with `InvalidBeadName` where the file
    /// name gives no valid name.
    pub fn open(path: &str, box_name: &str, facts: Option<FileFacts>) -> (r: Result<Archive, BeadError>)
        ensures
            follows(
                r,
                opened(
                    path@,
                    box_name@,
                    match facts {
                        Some(f) => Some(f@),
                        None => None,
                    },
                ),
            ),
    {
        match facts {
            None => Err(BeadError::BeadNotFound(catenate("Archive does not exist: ", path))),
            Some(facts) => {
                let name = Self::parse_name_from_path(path)?;
                Ok(
                    Archive {
                        path: path.to_owned(),
                        box_name: box_name.to_owned(),
                        name,
                        cache_path: replace_extension(path, "xmeta"),
                        facts,
                    },
                )
            },
        }
    }

    /// Freezes `workspace` at `freeze_time` into the archive at `path`, where
    /// no file may be yet (`exists` says whether one is). The caller writes the
    /// container: the record of the archive, an empty manifest, and the input
    /// name map of the workspace.
    pub fn create(path: &str, workspace: &Workspace, freeze_time: String, exists: bool) -> (r: Result<
        Archive,
        BeadError,
    >)
        ensures
            follows(r, created(path@, workspace@, freeze_time@, exists)),
    {
        if exists {
            return Err(BeadError::AlreadyExists(catenate("Archive already exists: ", path)));
        }
        let bead_name = match workspace.name() {
            Some(n) => n,
            None => "unnamed".to_owned(),
        };
        let name = BeadName::new(bead_name.as_str())?;
        let mut meta = workspace.meta.clone();
        meta.freeze_time = Some(freeze_time);
        meta.freeze_name = Some(bead_name);
        let mut entries: Vec<String> = Vec::new();
        entries.push(layout::BEAD_META.to_owned());
        entries.push(layout::MANIFEST.to_owned());
        entries.push(layout::INPUT_MAP.to_owned());
        assert(entries.deep_view() =~= frozen_entries());
        Ok(
            Archive {
                path: path.to_owned(),
                box_name: String::new(),
                name,
                cache_path: replace_extension(path, "xmeta"),
                facts: FileFacts {
                    modified: None,
                    cache: ArchiveCache::empty(),
                    container: Ok(Container { entries, meta: Ok(meta) }),
                },
            },
        )
    }

    /// Unpacks the archive into `workspace`: lays out the extraction of the
    /// code into its directory and makes the record of the archive its record.
    pub fn unpack_to(&self, workspace: &mut Workspace) -> (r: Result<Vec<FsAction>, BeadError>)
        ensures
            step_follows(old(workspace)@, final(workspace)@, r, unpacked(self@, old(workspace)@)),
    {
        let files = self.unpack_code_to(workspace.directory.as_str())?;
        let meta = match self.meta() {
            Ok(m) => m.clone(),
            Err(e) => {
                return Err(e);
            },
        };
        workspace.meta = meta;
        Ok(files)
    }

    /// The bead name that the file name of `path` gives.
    pub fn parse_name_from_path(path: &str) -> (r: Result<BeadName, BeadError>)
        ensures
            follows(r, parsed_name(path@)),
    {
        match file_name(path) {
            None => Err(BeadError::InvalidArchive("Invalid archive filename".to_owned())),
            Some(f) => {
                let chars = chars_of(f.as_str());
                let zip = chars_of(".zip");
                proof {
                    reveal_strlit(".zip");
                }
                let end: usize = if ends_with(&chars, &zip) { chars.len() - 4 } else { chars.len() };
                let stem = string_of(&chars, 0, end);
                let stem_chars = chars_of(stem.as_str());
                let cut = find_char(&stem_chars, '_');
                proof {
                    lemma_first_index(stem_chars@, '_');
                }
                let name = string_of(&stem_chars, 0, cut);
                assert(stem@ == if has_suffix(f@, ".zip"@) { f@.take(f@.len() - 4) } else { f@ });
                BeadName::new(name.as_str())
            },
        }
    }

    /// Where the archive lies.
    pub fn path(&self) -> (s: &str)
        ensures
            s@ == self@.path,
    {
        self.path.as_str()
    }

    /// The box in which the archive was found; empty for one just created.
    pub fn box_name(&self) -> (s: &str)
        ensures
            s@ == self@.box_name,
    {
        self.box_name.as_str()
    }

    /// Where the side-car cache of the archive lies.
    pub fn cache_path(&self) -> (s: &str)
        ensures
            s@ == self@.cache_path,
    {
        self.cache_path.as_str()
    }

    /// What was found out about the file.
    pub fn facts(&self) -> (f: &FileFacts)
        ensures
            f@ == self@.facts,
    {
        &self.facts
    }

    /// The name of the bead.
    pub fn name(&self) -> (n: &BeadName)
        ensures
            n@ == self@.name,
    {
        &self.name
    }

    /// When the file was last modified, if that could be told.
    pub fn modified(&self) -> (m: Option<Instant>)
        ensures
            m == self@.facts.modified,
    {
        self.facts.modified
    }

    /// The metadata record: the cached one before the one in the container.
    pub fn meta(&self) -> (r: Result<&BeadMeta, BeadError>)
        ensures
            match meta_of(self@.facts) {
                Ok(m) => r is Ok && r->Ok_0@ == m,
                Err(e) => r is Err && r->Err_0@ == e,
            },
    {
        match &self.facts.cache.meta {
            Some(m) => Ok(m),
            None => match &self.facts.container {
                Ok(c) => match &c.meta {
                    Ok(m) => Ok(m),
                    Err(e) => Err(e.clone()),
                },
                Err(e) => Err(e.clone()),
            },
        }
    }

    /// The kind of the bead, from its metadata record.
    pub fn kind(&self) -> (r: Result<String, BeadError>)
        ensures
            match meta_of(self@.facts) {
                Ok(m) => r is Ok && r->Ok_0@ == m.kind,
                Err(e) => r is Err && r->Err_0@ == e,
            },
    {
        match self.meta() {
            Ok(m) => Ok(m.kind.clone()),
            Err(e) => Err(e),
        }
    }

    /// The content id, where the facts about the file carry one.
    pub fn content_id(&self) -> (c: Option<ContentId>)
        ensures
            match content_id_of(self@.facts) {
                Some(id) => c is Some && c->Some_0@ == id,
                None => c is None,
            },
    {
        match &self.facts.cache.content_id {
            Some(id) => Some(ContentId::new(id.as_str())),
            None => None,
        }
    }

    /// When the bead was frozen; `now` where the record does not tell.
    pub fn freeze_time(&self, now: Instant) -> (at: Instant)
        ensures
            at == freeze_time_of(self@.facts, now),
    {
        match self.meta() {
            Ok(m) => match &m.freeze_time {
                Some(t) => match parse_timestamp(t.as_str()) {
                    Ok(at) => at,
                    Err(_) => now,
                },
                None => now,
            },
            Err(_) => now,
        }
    }

    /// The specifications of the inputs of the bead; none where the record
    /// cannot be had.
    pub fn inputs(&self) -> (v: Vec<InputSpec>)
        ensures
            v@.len() == inputs_of(self@.facts).len(),
            forall|i: int| 0 <= i < v@.len() ==> v@[i]@ == inputs_of(self@.facts)[i],
    {
        let mut v: Vec<InputSpec> = Vec::new();
        match self.meta() {
            Ok(m) => {
                let mut i: usize = 0;
                while i < m.inputs.len()
                    invariant
                        i <= m.inputs@.len(),
                        v@.len() == i,
                        forall|j: int| 0 <= j < i ==> v@[j]@ == m.inputs@[j].1,
                    decreases m.inputs@.len() - i,
                {
                    v.push(m.inputs.value_at(i).clone());
                    i += 1;
                }
                v
            },
            Err(_) => v,
        }
    }

    /// Lays out the extraction of the one entry `archive_path` into `dest_dir`:
    /// the entry goes to `dest_dir` joined with the last segment of its name.
    pub fn extract_file(&self, archive_path: &str, dest_dir: &str) -> (r: Result<FsAction, BeadError>)
        ensures
            follows(r, file_plan(self@, archive_path@, dest_dir@)),
    {
        if climbs(&chars_of(archive_path)) {
            return Err(BeadError::InvalidArchive("Path traversal detected in archive path".to_owned()));
        }
        match &self.facts.container {
            Err(e) => Err(e.clone()),
            Ok(c) => {
                if !holds_name(&c.entries, archive_path) {
                    return Err(
                        BeadError::InvalidArchive(catenate("File not found in archive: ", archive_path)),
                    );
                }
                match file_name(archive_path) {
                    None => Err(BeadError::InvalidArchive("Invalid file path in archive".to_owned())),
                    Some(n) => Ok(
                        FsAction::extract(self.path.clone(), archive_path.to_owned(), join(dest_dir, n.as_str())),
                    ),
                }
            },
        }
    }

    /// Checks a destination once the disk has made it canonical: it must lie
    /// within the destination directory, itself made canonical.
    pub fn check_containment(dest: &str, dest_dir: &str) -> (r: Result<(), BeadError>)
        ensures
            r is Ok <==> lies_within(dest@, dest_dir@),
            r is Err ==> r->Err_0@.kind == ErrorKind::InvalidArchive,
    {
        if is_within(dest, dest_dir) {
            Ok(())
        } else {
            Err(BeadError::InvalidArchive("Path traversal detected".to_owned()))
        }
    }

    /// Lays out the extraction of all files under `dir_prefix` into `dest_dir`,
    /// each to the place that its name gives it under the prefix. A prefix
    /// under which nothing lies gives an empty plan. An entry under the prefix
    /// whose name would take it outside `dest_dir` refuses the whole
    /// extraction.
    pub fn extract_dir(&self, dir_prefix: &str, dest_dir: &str) -> (r: Result<Vec<FsAction>, BeadError>)
        ensures
            plan_follows(r, dir_plan(self@, dir_prefix@, dest_dir@)),
    {
        match &self.facts.container {
            Err(e) => Err(e.clone()),
            Ok(c) => {
                let slash = chars_of("/");
                let mut prefix = chars_of(dir_prefix);
                proof {
                    reveal_strlit("/");
                }
                if !ends_with(&prefix, &slash) {
                    prefix.push('/');
                }
                let mut plan: Vec<FsAction> = Vec::new();
                let mut i: usize = 0;
                while i < c.entries.len()
                    invariant
                        i <= c.entries@.len(),
                        slash@ == "/"@,
                        prefix@ == as_dir_prefix(dir_prefix@),
                        self.facts.container == Ok::<Container, BeadError>(*c),
                        extractions_under(self@.path, c.entries.deep_view().take(i as int), prefix@, dest_dir@)
                            == Some(plan.deep_view()),
                    decreases c.entries@.len() - i,
                {
                    let name = chars_of(c.entries[i].as_str());
                    let ghost before = plan.deep_view();
                    proof {
                        let next = c.entries.deep_view().take(i + 1);
                        assert(next.drop_last() =~= c.entries.deep_view().take(i as int));
                        assert(next.last() == name@);
                    }
                    if starts_with(&name, &prefix) && !ends_with(&name, &slash) {
                        let rel_chars = chars_of(string_of(&name, prefix.len(), name.len()).as_str());
                        assert(name@.subrange(prefix@.len() as int, name@.len() as int) =~= name@.skip(
                            prefix@.len() as int,
                        ));
                        let rel = string_of(&rel_chars, 0, rel_chars.len());
                        assert(rel_chars@.subrange(0, rel_chars@.len() as int) =~= rel_chars@);
                        let dest = join(dest_dir, rel.as_str());
                        if escaping(&rel_chars) {
                            proof {
                                assert(place_under(name@, prefix@, dest_dir@) is None);
                                assert(extractions_under(
                                    self@.path,
                                    c.entries.deep_view().take(i + 1),
                                    prefix@,
                                    dest_dir@,
                                ) is None);
                                lemma_dir_prefix_fails(self@.path, c.entries.deep_view(), i + 1, prefix@, dest_dir@);
                            }
                            return Err(
                                BeadError::InvalidArchive(
                                    catenate("Path traversal detected in archive: ", c.entries[i].as_str()),
                                ),
                            );
                        }
                        plan.push(FsAction::extract(self.path.clone(), c.entries[i].clone(), dest));
                        assert(plan.deep_view() =~= before.push(extraction(self@.path, name@, joined(dest_dir@, rel@))));
                    }
                    i += 1;
                }
                assert(c.entries.deep_view().take(i as int) =~= c.entries.deep_view());
                Ok(plan)
            },
        }
    }

    /// Lays out the extraction of the payload, `data/`, into `dest_dir`.
    pub fn unpack_data_to(&self, dest_dir: &str) -> (r: Result<Vec<FsAction>, BeadError>)
        ensures
            plan_follows(r, dir_plan(self@, "data/"@, dest_dir@)),
    {
        self.extract_dir("data/", dest_dir)
    }

    /// Lays out the extraction of the code, `code/`, into `target_dir`.
    pub fn unpack_code_to(&self, target_dir: &str) -> (r: Result<Vec<FsAction>, BeadError>)
        ensures
            plan_follows(r, dir_plan(self@, "code/"@, target_dir@)),
    {
        self.extract_dir("code/", target_dir)
    }

    /// Lays out the extraction of every entry that is not a directory into
    /// `dest_dir`, which is to be given in canonical form. An entry whose name,
    /// leading separators apart, holds `..` refuses the whole extraction.
    pub fn extract_all(&self, dest_dir: &str) -> (r: Result<Vec<FsAction>, BeadError>)
        ensures
            plan_follows(r, all_plan(self@, dest_dir@)),
    {
        match &self.facts.container {
            Err(e) => Err(e.clone()),
            Ok(c) => {
                let slash = chars_of("/");
                let dots = chars_of("..");
                let mut plan: Vec<FsAction> = Vec::new();
                let mut i: usize = 0;
                while i < c.entries.len()
                    invariant
                        i <= c.entries@.len(),
                        slash@ == "/"@,
                        dots@ == ".."@,
                        self.facts.container == Ok::<Container, BeadError>(*c),
                        all_extractions(self@.path, c.entries.deep_view().take(i as int), dest_dir@) == Some(
                            plan.deep_view(),
                        ),
                    decreases c.entries@.len() - i,
                {
                    let name = chars_of(c.entries[i].as_str());
                    proof {
                        let next = c.entries.deep_view().take(i + 1);
                        assert(next.drop_last() =~= c.entries.deep_view().take(i as int));
                    }
                    if !ends_with(&name, &slash) {
                        let mut start: usize = 0;
                        assert(name@.skip(0) =~= name@);
                        while start < name.len() && name[start] == '/'
                            invariant
                                start <= name@.len(),
                                without_leading(name@) == without_leading(name@.skip(start as int)),
                            decreases name@.len() - start,
                        {
                            assert(name@.skip(start as int).drop_first() =~= name@.skip(start + 1));
                            start += 1;
                        }
                        let rel_chars = chars_of(string_of(&name, start, name.len()).as_str());
                        let rel = string_of(&rel_chars, 0, rel_chars.len());
                        assert(rel_chars@.subrange(0, rel_chars@.len() as int) =~= rel_chars@);
                        let dest = join(dest_dir, rel.as_str());
                        if contains(&rel_chars, &dots) {
                            proof {
                                lemma_prefix_fails(self@.path, c.entries.deep_view(), i + 1, dest_dir@);
                            }
                            return Err(
                                BeadError::InvalidArchive(
                                    catenate("Path traversal detected in archive: ", c.entries[i].as_str()),
                                ),
                            );
                        }
                        plan.push(FsAction::extract(self.path.clone(), c.entries[i].clone(), dest));
                    }
                    i += 1;
                }
                assert(c.entries.deep_view().take(i as int) =~= c.entries.deep_view());
                Ok(plan)
            },
        }
    }

    /// The plan that saves the cache: one action where the cache holds
    /// anything, none where it is empty.
    pub fn save_cache(&self) -> (plan: Vec<FsAction>)
        ensures
            plan.deep_view() == if self@.facts.cache.meta is None && self@.facts.cache.content_id is None {
                Seq::<ActionView>::empty()
            } else {
                seq![act(Op::SaveCache, self@.cache_path)]
            },
    {
        let mut plan: Vec<FsAction> = Vec::new();
        if !self.facts.cache.is_empty() {
            plan.push(FsAction::on(Op::SaveCache, self.cache_path.clone()));
        }
        plan
    }

    /// Checks that the archive is whole.
    pub fn validate(&self) -> (r: Result<(), BeadError>)
        ensures
            match validated(self@.facts) {
                Ok(_) => r is Ok,
                Err(k) => r is Err && r->Err_0@.kind == k,
            },
    {
        match &self.facts.container {
            Err(e) => Err(e.clone()),
            Ok(c) => {
                if !holds_name(&c.entries, layout::BEAD_META) {
                    Err(BeadError::InvalidArchive("Missing meta/bead file".to_owned()))
                } else if !holds_name(&c.entries, layout::MANIFEST) {
                    Err(BeadError::InvalidArchive("Missing meta/manifest file".to_owned()))
                } else {
                    match self.meta() {
                        Err(e) => Err(e),
                        Ok(_) => Ok(()),
                    }
                }
            },
        }
    }
}

} // verus!
