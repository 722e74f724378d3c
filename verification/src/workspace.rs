//! A workspace: the live, editable form of a bead.
//!
//! A `Workspace` is the metadata record of a directory, the map from its input
//! slots to the beads that filled them, and what is known of its `input/`
//! area: which slots hold data and what is locked against writing. Every
//! operation changes that value and hands back the plan that makes the disk
//! follow; an operation that fails changes nothing and plans nothing.

pub mod layout;

use vstd::prelude::*;
use crate::archive::{dir_plan, Archive, ArchiveView};
use crate::error::{follows, BeadError, ErrorKind};
use crate::meta::{valid_input_name, BeadMeta, InputName, InputSpec, InputSpecView, MetaView};
use crate::paths::{file_name, file_name_of, join, joined};
use crate::plan::{act, extend_plan, ActionView, FsAction, Op};
use crate::table::{distinct_keys, has_key, lemma_put, lemma_without, put, value_of, without, Table};
use crate::text::{between, catenate};

verus! {

/// What is known of the `input/` area of a workspace: whether the area itself
/// is locked against writing, and for each slot that holds data whether that
/// slot is locked.
#[derive(Debug)]
pub struct InputArea {
    pub locked: bool,
    pub slots: Table<bool>,
}

/// An input area as plain values.
pub struct AreaView {
    pub locked: bool,
    pub slots: Seq<(Seq<char>, bool)>,
}

impl View for InputArea {
    type V = AreaView;

    open spec fn view(&self) -> AreaView {
        AreaView { locked: self.locked, slots: self.slots@ }
    }
}

/// What the caller found in a directory that may be a workspace: the input
/// area if `input/` is a directory; whether `output/` and `temp/` are
/// directories; the metadata record if its file is there, or why it could not
/// be read; and the same for the input name map.
#[derive(Debug)]
pub struct WorkspaceScan {
    pub input_area: Option<InputArea>,
    pub output_dir: bool,
    pub temp_dir: bool,
    pub meta: Option<Result<BeadMeta, BeadError>>,
    pub input_map: Option<Result<Table<String>, BeadError>>,
}

/// A workspace.
#[derive(Debug)]
pub struct Workspace {
    pub directory: String,
    pub meta: BeadMeta,
    pub input_map: Table<String>,
    pub input_area: InputArea,
}

/// A workspace as plain values.
pub struct WorkspaceView {
    pub directory: Seq<char>,
    pub meta: MetaView,
    pub input_map: Seq<(Seq<char>, Seq<char>)>,
    pub area: AreaView,
}

impl View for Workspace {
    type V = WorkspaceView;

    open spec fn view(&self) -> WorkspaceView {
        WorkspaceView {
            directory: self.directory@,
            meta: self.meta@,
            input_map: self.input_map@,
            area: self.input_area@,
        }
    }
}

/// The `input/` directory of the workspace at `dir`.
pub open spec fn input_dir(dir: Seq<char>) -> Seq<char> {
    joined(dir, "input"@)
}

/// The directory of the input slot `name` of the workspace at `dir`.
pub open spec fn slot_dir(dir: Seq<char>, name: Seq<char>) -> Seq<char> {
    joined(input_dir(dir), name)
}

/// The file of the metadata record of the workspace at `dir`.
pub open spec fn meta_file(dir: Seq<char>) -> Seq<char> {
    joined(dir, ".bead-meta/bead"@)
}

/// The file of the input name map of the workspace at `dir`.
pub open spec fn map_file(dir: Seq<char>) -> Seq<char> {
    joined(dir, ".bead-meta/input.map"@)
}

/// A directory is a workspace if it has the three areas and a metadata file.
pub open spec fn valid_layout(scan: WorkspaceScan) -> bool {
    scan.input_area is Some && scan.output_dir && scan.temp_dir && scan.meta is Some
}

/// The workspace that opening `directory` gives.
pub open spec fn opened(directory: Seq<char>, scan: WorkspaceScan) -> Result<WorkspaceView, ErrorKind> {
    if !valid_layout(scan) {
        Err(ErrorKind::InvalidWorkspace)
    } else {
        match scan.meta->Some_0 {
            Err(e) => Err(e@.kind),
            Ok(m) => match scan.input_map {
                Some(Err(e)) => Err(e@.kind),
                Some(Ok(t)) => Ok(
                    WorkspaceView { directory, meta: m@, input_map: t@, area: scan.input_area->Some_0@ },
                ),
                None => Ok(
                    WorkspaceView { directory, meta: m@, input_map: Seq::empty(), area: scan.input_area->Some_0@ },
                ),
            },
        }
    }
}

/// The plan that lays a fresh workspace out at `dir`.
pub open spec fn creation_plan(dir: Seq<char>) -> Seq<ActionView> {
    seq![
        act(Op::CreateDirAll, dir),
        act(Op::CreateDir, joined(dir, "input"@)),
        act(Op::CreateDir, joined(dir, "output"@)),
        act(Op::CreateDir, joined(dir, "temp"@)),
        act(Op::CreateDir, joined(dir, ".bead-meta"@)),
        act(Op::SaveMeta, meta_file(dir)),
        act(Op::Lock, input_dir(dir)),
    ]
}

/// The plan that saves the input name map of `w`: the map is written while it
/// holds anything, and its file removed once it holds nothing.
pub open spec fn map_saving(w: WorkspaceView) -> Seq<ActionView> {
    if w.input_map.len() > 0 {
        seq![act(Op::SaveInputMap, map_file(w.directory))]
    } else {
        seq![act(Op::RemoveFile, map_file(w.directory))]
    }
}

/// A step of a workspace: the workspace after it and the plan that goes with
/// it, or the kind of error that refused it.
pub type Step = Result<(WorkspaceView, Seq<ActionView>), ErrorKind>;

/// The workspace went from `before` to `after` and answered `outcome` as
/// `model` prescribes. A refused step leaves the workspace as it was.
pub open spec fn step_follows(
    before: WorkspaceView,
    after: WorkspaceView,
    outcome: Result<Vec<FsAction>, BeadError>,
    model: Step,
) -> bool {
    match model {
        Ok((w, plan)) => after == w && outcome is Ok && outcome->Ok_0.deep_view() == plan,
        Err(k) => after == before && outcome is Err && outcome->Err_0@.kind == k,
    }
}

/// Declaring the input `name`: refused for a name that is not valid and for
/// one that is declared already.
pub open spec fn added(w: WorkspaceView, name: Seq<char>, spec: InputSpecView) -> Step {
    if !valid_input_name(name) {
        Err(ErrorKind::InvalidInput)
    } else if has_key(w.meta.inputs, name) {
        Err(ErrorKind::AlreadyExists)
    } else {
        Ok(
            (
                WorkspaceView { meta: MetaView { inputs: put(w.meta.inputs, name, spec), ..w.meta }, ..w },
                seq![act(Op::SaveMeta, meta_file(w.directory))],
            ),
        )
    }
}

/// Unloading the slot `name`: nothing where it holds no data; else the slot is
/// unlocked and removed.
pub open spec fn unloaded(w: WorkspaceView, name: Seq<char>) -> (WorkspaceView, Seq<ActionView>) {
    if has_key(w.area.slots, name) {
        (
            WorkspaceView { area: AreaView { slots: without(w.area.slots, name), ..w.area }, ..w },
            seq![
                act(Op::Unlock, slot_dir(w.directory, name)),
                act(Op::RemoveDirAll, slot_dir(w.directory, name)),
            ],
        )
    } else {
        (w, Seq::empty())
    }
}

/// Withdrawing the input `name`: refused where it is not declared; else the
/// slot is unloaded, and the declaration and the bead name recorded for it go.
pub open spec fn input_deleted(w: WorkspaceView, name: Seq<char>) -> Step {
    if !has_key(w.meta.inputs, name) {
        Err(ErrorKind::InvalidInput)
    } else {
        let (emptied, unloading) = unloaded(w, name);
        let after = WorkspaceView {
            meta: MetaView { inputs: without(emptied.meta.inputs, name), ..emptied.meta },
            input_map: without(emptied.input_map, name),
            ..emptied
        };
        Ok((after, unloading + seq![act(Op::SaveMeta, meta_file(w.directory))] + map_saving(after)))
    }
}

/// Recording that the bead `bead` filled the input `name`: refused where the
/// input is not declared.
pub open spec fn bead_name_set(w: WorkspaceView, name: Seq<char>, bead: Seq<char>) -> Step {
    if !has_key(w.meta.inputs, name) {
        Err(ErrorKind::InvalidInput)
    } else {
        Ok(
            (
                WorkspaceView { input_map: put(w.input_map, name, bead), ..w },
                seq![act(Op::SaveInputMap, map_file(w.directory))],
            ),
        )
    }
}

/// Loading the input `name` from the archive `a`: refused
/// where the input is not declared; nothing where the slot holds data already;
/// refused where the payload cannot be laid out; else the directory of the
/// input area is unlocked, the slot made, the payload extracted into it, and
/// then first the slot with all that is in it and after it the input area
/// locked.
pub open spec fn loaded(w: WorkspaceView, name: Seq<char>, a: ArchiveView) -> Step {
    if !has_key(w.meta.inputs, name) {
        Err(ErrorKind::InvalidInput)
    } else if has_key(w.area.slots, name) {
        Ok((w, Seq::empty()))
    } else {
        match dir_plan(a, "data/"@, slot_dir(w.directory, name)) {
            Err(k) => Err(k),
            Ok(files) => Ok(
                (
                    WorkspaceView { area: AreaView { locked: true, slots: put(w.area.slots, name, true) }, ..w },
                    seq![
                        act(Op::UnlockDir, input_dir(w.directory)),
                        act(Op::CreateDirAll, slot_dir(w.directory, name)),
                    ] + files + seq![
                        act(Op::Lock, slot_dir(w.directory, name)),
                        act(Op::Lock, input_dir(w.directory)),
                    ],
                ),
            ),
        }
    }
}

/// Moving the input `name` to `spec` and loading it from the archive `a`:
/// refused where the input is not declared or the payload cannot be laid out;
/// else the slot is unloaded, the declaration replaced and saved, and the slot
/// loaded again.
pub open spec fn updated(w: WorkspaceView, name: Seq<char>, spec: InputSpecView, a: ArchiveView) -> Step {
    if !has_key(w.meta.inputs, name) {
        Err(ErrorKind::InvalidInput)
    } else {
        let (emptied, unloading) = unloaded(w, name);
        let pinned = WorkspaceView {
            meta: MetaView { inputs: put(emptied.meta.inputs, name, spec), ..emptied.meta },
            ..emptied
        };
        match loaded(pinned, name, a) {
            Err(k) => Err(k),
            Ok((after, loading)) => Ok(
                (after, unloading + seq![act(Op::SaveMeta, meta_file(w.directory))] + loading),
            ),
        }
    }
}

/// What came of loading one input: the plan of the load, or the kind of error
/// that refused it.
pub type Outcome = (Seq<char>, Result<Seq<ActionView>, ErrorKind>);

/// Loading every declared input, the `i`-th from the `i`-th archive: the
/// workspace after the first `upto` inputs and what came of each of them. An
/// input without an archive at its place is refused; a refused input changes
/// nothing.
pub open spec fn all_loaded(w: WorkspaceView, archives: Seq<ArchiveView>, upto: nat) -> (WorkspaceView, Seq<Outcome>)
    decreases upto,
{
    if upto == 0 {
        (w, Seq::empty())
    } else {
        let i = (upto - 1) as nat;
        let (so_far, outcomes) = all_loaded(w, archives, i);
        let name = w.meta.inputs[i as int].0;
        if i >= archives.len() {
            (so_far, outcomes.push((name, Err(ErrorKind::InvalidInput))))
        } else {
            match loaded(so_far, name, archives[i as int]) {
                Ok((after, plan)) => (after, outcomes.push((name, Ok(plan)))),
                Err(k) => (so_far, outcomes.push((name, Err(k)))),
            }
        }
    }
}

/// The outcome is the one that the model prescribes: for the same input, the
/// same plan or an error of the same kind.
pub open spec fn outcome_follows(outcome: (String, Result<Vec<FsAction>, BeadError>), model: Outcome) -> bool {
    &&& outcome.0@ == model.0
    &&& match model.1 {
        Ok(plan) => outcome.1 is Ok && outcome.1->Ok_0.deep_view() == plan,
        Err(k) => outcome.1 is Err && outcome.1->Err_0@.kind == k,
    }
}

/// The outcomes are those that the model prescribes, one for one.
pub open spec fn outcomes_follow(outcomes: Seq<(String, Result<Vec<FsAction>, BeadError>)>, model: Seq<Outcome>) -> bool {
    &&& outcomes.len() == model.len()
    &&& forall|i: int| 0 <= i < model.len() ==> outcome_follows(#[trigger] outcomes[i], model[i])
}

/// Loading the inputs one after the other changes no declaration, and gives
/// one outcome for each input.
pub proof fn lemma_all_loaded_keeps_meta(w: WorkspaceView, archives: Seq<ArchiveView>, upto: nat)
    ensures
        all_loaded(w, archives, upto).0.meta == w.meta,
        all_loaded(w, archives, upto).0.directory == w.directory,
        all_loaded(w, archives, upto).1.len() == upto,
    decreases upto,
{
    if upto > 0 {
        lemma_all_loaded_keeps_meta(w, archives, (upto - 1) as nat);
    }
}

/// After a load the slot holds data and is locked, the input area is locked,
/// and where anything was done the plan ends by locking the slot and then the
/// input area.
pub proof fn lemma_load_locks(w: WorkspaceView, name: Seq<char>, a: ArchiveView)
    requires
        distinct_keys(w.area.slots),
        loaded(w, name, a) is Ok,
    ensures
        has_key(loaded(w, name, a)->Ok_0.0.area.slots, name),
        !has_key(w.area.slots, name) ==> {
            let (after, plan) = loaded(w, name, a)->Ok_0;
            &&& value_of(after.area.slots, name)
            &&& after.area.locked
            &&& plan.len() >= 4
            &&& plan[plan.len() - 2] == act(Op::Lock, slot_dir(w.directory, name))
            &&& plan[plan.len() - 1] == act(Op::Lock, input_dir(w.directory))
        },
{
    if !has_key(w.area.slots, name) {
        lemma_put(w.area.slots, name, true);
    }
}

/// After an unload the slot holds no data, and where it held some the plan
/// ends by removing its directory.
pub proof fn lemma_unload_removes(w: WorkspaceView, name: Seq<char>)
    requires
        distinct_keys(w.area.slots),
    ensures
        !has_key(unloaded(w, name).0.area.slots, name),
        has_key(w.area.slots, name) ==> unloaded(w, name).1.last() == act(
            Op::RemoveDirAll,
            slot_dir(w.directory, name),
        ),
        unloaded(w, name).0.meta == w.meta,
{
    lemma_without(w.area.slots, name);
}

/// Loading a slot that has just been loaded succeeds, plans nothing and leaves
/// the workspace as it is.
pub proof fn lemma_load_twice(w: WorkspaceView, name: Seq<char>, a: ArchiveView)
    requires
        distinct_keys(w.area.slots),
        loaded(w, name, a) is Ok,
    ensures
        loaded(loaded(w, name, a)->Ok_0.0, name, a) == Ok::<(WorkspaceView, Seq<ActionView>), ErrorKind>(
            (loaded(w, name, a)->Ok_0.0, Seq::empty()),
        ),
{
    lemma_load_locks(w, name, a);
}

/// The path of the slot `name` under the workspace at `dir`.
fn slot_path(dir: &str, name: &str) -> (p: String)
    ensures
        p@ == slot_dir(dir@, name@),
{
    join(join(dir, layout::INPUT).as_str(), name)
}

impl InputArea {
    /// The input area of a fresh workspace: locked, with no slot filled.
    pub fn fresh() -> (a: InputArea)
        ensures
            a@ == (AreaView { locked: true, slots: Seq::empty() }),
    {
        InputArea { locked: true, slots: Table::new() }
    }
}

impl Workspace {
    /// Opens the workspace at `directory`, given what was found there. It fails
    /// with `InvalidWorkspace` unless the layout is that of a workspace, and
    /// with the error of the read where the record or the map could not be read.
    pub fn open(directory: &str, scan: WorkspaceScan) -> (r: Result<Workspace, BeadError>)
        ensures
            follows(r, opened(directory@, scan)),
    {
        if !Self::is_valid(&scan) {
            return Err(BeadError::InvalidWorkspace(catenate("Not a valid workspace: ", directory)));
        }
        let WorkspaceScan { input_area, output_dir: _, temp_dir: _, meta, input_map } = scan;
        let meta = match meta.unwrap() {
            Ok(m) => m,
            Err(e) => {
                return Err(e);
            },
        };
        let input_map = match input_map {
            Some(Ok(t)) => t,
            Some(Err(e)) => {
                return Err(e);
            },
            None => Table::new(),
        };
        Ok(Workspace { directory: directory.to_owned(), meta, input_map, input_area: input_area.unwrap() })
    }

    /// Makes a workspace of the given kind at `directory`, where nothing may
    /// be yet, and hands back the plan that lays it out on disk.
    pub fn create(directory: &str, kind: String, exists: bool) -> (r: Result<(Workspace, Vec<FsAction>), BeadError>)
        ensures
            r is Ok <==> !exists,
            r is Err ==> r->Err_0@.kind == ErrorKind::AlreadyExists,
            r is Ok ==> r->Ok_0.0@ == (WorkspaceView {
                directory: directory@,
                meta: MetaView {
                    meta_version: crate::meta::META_VERSION@,
                    kind: kind@,
                    inputs: Seq::empty(),
                    freeze_time: None,
                    freeze_name: None,
                },
                input_map: Seq::empty(),
                area: AreaView { locked: true, slots: Seq::empty() },
            }),
            r is Ok ==> r->Ok_0.1.deep_view() == creation_plan(directory@),
    {
        if exists {
            return Err(BeadError::AlreadyExists(catenate("Directory already exists: ", directory)));
        }
        let workspace = Workspace {
            directory: directory.to_owned(),
            meta: BeadMeta::new_workspace(kind),
            input_map: Table::new(),
            input_area: InputArea::fresh(),
        };
        let mut plan: Vec<FsAction> = Vec::new();
        plan.push(FsAction::on(Op::CreateDirAll, directory.to_owned()));
        plan.push(FsAction::on(Op::CreateDir, join(directory, layout::INPUT)));
        plan.push(FsAction::on(Op::CreateDir, join(directory, layout::OUTPUT)));
        plan.push(FsAction::on(Op::CreateDir, join(directory, layout::TEMP)));
        plan.push(FsAction::on(Op::CreateDir, join(directory, layout::META_DIR)));
        plan.push(FsAction::on(Op::SaveMeta, join(directory, layout::BEAD_META)));
        plan.push(FsAction::on(Op::Lock, join(directory, layout::INPUT)));
        Ok((workspace, plan))
    }

    /// Whether what was found in a directory is the layout of a workspace.
    pub fn is_valid(scan: &WorkspaceScan) -> (b: bool)
        ensures
            b == valid_layout(*scan),
    {
        scan.input_area.is_some() && scan.output_dir && scan.temp_dir && scan.meta.is_some()
    }

    /// The name of the workspace: the last segment of its directory.
    pub fn name(&self) -> (r: Option<String>)
        ensures
            match file_name_of(self@.directory) {
                Some(n) => r is Some && r->Some_0@ == n,
                None => r is None,
            },
    {
        file_name(self.directory.as_str())
    }

    /// The kind of the bead.
    pub fn kind(&self) -> (k: &str)
        ensures
            k@ == self@.meta.kind,
    {
        self.meta.kind.as_str()
    }

    /// The declared inputs, in the order of declaration.
    pub fn inputs(&self) -> (v: Vec<(&str, &InputSpec)>)
        ensures
            v@.len() == self@.meta.inputs.len(),
            forall|i: int| 0 <= i < v@.len() ==> (v@[i].0@, v@[i].1@) == self@.meta.inputs[i],
    {
        let mut v: Vec<(&str, &InputSpec)> = Vec::new();
        let mut i: usize = 0;
        while i < self.meta.inputs.len()
            invariant
                i <= self.meta.inputs@.len(),
                v@.len() == i,
                forall|j: int| 0 <= j < i ==> (v@[j].0@, v@[j].1@) == self.meta.inputs@[j],
            decreases self.meta.inputs@.len() - i,
        {
            v.push((self.meta.inputs.key_at(i), self.meta.inputs.value_at(i)));
            i += 1;
        }
        v
    }

    /// Whether the input `name` is declared.
    pub fn has_input(&self, name: &str) -> (b: bool)
        ensures
            b == has_key(self@.meta.inputs, name@),
    {
        self.meta.has_input(name)
    }

    /// Whether the slot `name` holds data.
    pub fn is_loaded(&self, name: &str) -> (b: bool)
        ensures
            b == has_key(self@.area.slots, name@),
    {
        self.input_area.slots.contains_key(name)
    }

    /// Declares the input `name` with `spec`.
    pub fn add_input(&mut self, name: String, spec: InputSpec) -> (r: Result<Vec<FsAction>, BeadError>)
        ensures
            step_follows(old(self)@, final(self)@, r, added(old(self)@, name@, spec@)),
    {
        if !Self::is_valid_input_name(name.as_str()) {
            return Err(BeadError::InvalidInput(between("Invalid input name: '", name.as_str(), "'")));
        }
        if self.has_input(name.as_str()) {
            return Err(BeadError::AlreadyExists(between("Input '", name.as_str(), "' already exists")));
        }
        self.meta.add_input(name, spec);
        Ok(self.save_meta())
    }

    /// Whether `name` may name an input slot.
    pub fn is_valid_input_name(name: &str) -> (b: bool)
        ensures
            b == valid_input_name(name@),
    {
        InputName::is_valid(name)
    }

    /// Withdraws the input `name`, unloading its slot first.
    pub fn delete_input(&mut self, name: &str) -> (r: Result<Vec<FsAction>, BeadError>)
        ensures
            step_follows(old(self)@, final(self)@, r, input_deleted(old(self)@, name@)),
    {
        if !self.has_input(name) {
            return Err(BeadError::InvalidInput(between("Input '", name, "' does not exist")));
        }
        let mut plan = self.unload_input(name);
        self.meta.remove_input(name);
        self.input_map.remove(name);
        extend_plan(&mut plan, self.save_meta());
        extend_plan(&mut plan, self.save_input_map());
        Ok(plan)
    }

    /// Unloads the slot `name`: its data goes, its declaration stays.
    pub fn unload_input(&mut self, name: &str) -> (plan: Vec<FsAction>)
        ensures
            final(self)@ == unloaded(old(self)@, name@).0,
            plan.deep_view() == unloaded(old(self)@, name@).1,
    {
        let mut plan: Vec<FsAction> = Vec::new();
        if self.is_loaded(name) {
            self.input_area.slots.remove(name);
            plan.push(FsAction::on(Op::Unlock, slot_path(self.directory.as_str(), name)));
            plan.push(FsAction::on(Op::RemoveDirAll, slot_path(self.directory.as_str(), name)));
        }
        plan
    }

    /// The bead that filled the input `input_name`, where that was recorded.
    pub fn get_input_bead_name(&self, input_name: &str) -> (r: Option<&String>)
        ensures
            r is Some == has_key(self@.input_map, input_name@),
            r is Some ==> r->Some_0@ == value_of(self@.input_map, input_name@),
    {
        self.input_map.get(input_name)
    }

    /// Records that the bead `bead_name` filled the input `input_name`.
    pub fn set_input_bead_name(&mut self, input_name: String, bead_name: String) -> (r: Result<
        Vec<FsAction>,
        BeadError,
    >)
        ensures
            step_follows(old(self)@, final(self)@, r, bead_name_set(old(self)@, input_name@, bead_name@)),
    {
        if !self.has_input(input_name.as_str()) {
            return Err(BeadError::InvalidInput(between("Input '", input_name.as_str(), "' does not exist")));
        }
        let ghost before = self.input_map@;
        self.input_map.keys_are_distinct();
        proof {
            lemma_put(before, input_name@, bead_name@);
        }
        self.input_map.insert(input_name, bead_name);
        Ok(self.save_input_map())
    }

    /// The plan that saves the metadata record.
    pub fn save_meta(&self) -> (plan: Vec<FsAction>)
        ensures
            plan.deep_view() == seq![act(Op::SaveMeta, meta_file(self@.directory))],
    {
        let mut plan: Vec<FsAction> = Vec::new();
        plan.push(FsAction::on(Op::SaveMeta, join(self.directory.as_str(), layout::BEAD_META)));
        plan
    }

    /// The plan that saves the input name map, or removes its file once the
    /// map is empty.
    pub fn save_input_map(&self) -> (plan: Vec<FsAction>)
        ensures
            plan.deep_view() == map_saving(self@),
    {
        let mut plan: Vec<FsAction> = Vec::new();
        let path = join(self.directory.as_str(), layout::INPUT_MAP);
        if !self.input_map.is_empty() {
            plan.push(FsAction::on(Op::SaveInputMap, path));
        } else {
            plan.push(FsAction::on(Op::RemoveFile, path));
        }
        plan
    }

    /// Loads the input `name` from `archive`.
    pub fn load_input(&mut self, name: &str, archive: &Archive) -> (r: Result<Vec<FsAction>, BeadError>)
        ensures
            step_follows(old(self)@, final(self)@, r, loaded(old(self)@, name@, archive@)),
    {
        if !self.has_input(name) {
            return Err(BeadError::InvalidInput(between("Input '", name, "' does not exist")));
        }
        if self.is_loaded(name) {
            let plan: Vec<FsAction> = Vec::new();
            assert(plan.deep_view() =~= Seq::<ActionView>::empty());
            return Ok(plan);
        }
        let slot = slot_path(self.directory.as_str(), name);
        let files = archive.extract_dir("data/", slot.as_str())?;
        let mut plan: Vec<FsAction> = Vec::new();
        plan.push(FsAction::on(Op::UnlockDir, join(self.directory.as_str(), layout::INPUT)));
        plan.push(FsAction::on(Op::CreateDirAll, slot.clone()));
        let ghost head = plan.deep_view();
        let ghost middle = files.deep_view();
        extend_plan(&mut plan, files);
        plan.push(FsAction::on(Op::Lock, slot));
        plan.push(FsAction::on(Op::Lock, join(self.directory.as_str(), layout::INPUT)));
        self.input_area.slots.insert(name.to_owned(), true);
        self.input_area.locked = true;
        proof {
            let dir = old(self)@.directory;
            assert(head =~= seq![act(Op::UnlockDir, input_dir(dir)), act(Op::CreateDirAll, slot_dir(dir, name@))]);
            assert(plan.deep_view() =~= head + middle + seq![
                act(Op::Lock, slot_dir(dir, name@)),
                act(Op::Lock, input_dir(dir)),
            ]);
        }
        Ok(plan)
    }

    /// Moves the input `name` to `new_spec` and loads it from `archive`.
    pub fn update_input(&mut self, name: &str, new_spec: InputSpec, archive: &Archive) -> (r: Result<
        Vec<FsAction>,
        BeadError,
    >)
        ensures
            step_follows(old(self)@, final(self)@, r, updated(old(self)@, name@, new_spec@, archive@)),
    {
        if !self.has_input(name) {
            return Err(BeadError::InvalidInput(between("Input '", name, "' does not exist")));
        }
        self.input_area.slots.keys_are_distinct();
        self.meta.inputs.keys_are_distinct();
        proof {
            lemma_unload_removes(old(self)@, name@);
            lemma_put(unloaded(old(self)@, name@).0.meta.inputs, name@, new_spec@);
        }
        // nothing is changed unless the load that ends the update can be laid out
        if let Err(e) = archive.extract_dir("data/", slot_path(self.directory.as_str(), name).as_str()) {
            return Err(e);
        }
        let mut plan = self.unload_input(name);
        self.meta.add_input(name.to_owned(), new_spec);
        extend_plan(&mut plan, self.save_meta());
        match self.load_input(name, archive) {
            Ok(files) => {
                extend_plan(&mut plan, files);
                Ok(plan)
            },
            Err(e) => {
                proof {
                    assert(false);
                }
                Err(e)
            },
        }
    }

    /// Loads every declared input, the `i`-th from the `i`-th archive, and
    /// hands back for each input its name with the plan of its load or the
    /// error that refused it. This pairs inputs and archives by their place
    /// alone; it does not look for the archive that an input is pinned to.
    pub fn load_all_inputs(&mut self, archives: &[Archive]) -> (r: Vec<(String, Result<Vec<FsAction>, BeadError>)>)
        ensures
            final(self)@ == all_loaded(old(self)@, archives.deep_view(), old(self)@.meta.inputs.len()).0,
            outcomes_follow(r@, all_loaded(old(self)@, archives.deep_view(), old(self)@.meta.inputs.len()).1),
    {
        let mut outcomes: Vec<(String, Result<Vec<FsAction>, BeadError>)> = Vec::new();
        let n: usize = self.meta.inputs.len();
        let mut i: usize = 0;
        while i < n
            invariant
                i <= n,
                n == old(self)@.meta.inputs.len(),
                self@.meta == old(self)@.meta,
                self@ == all_loaded(old(self)@, archives.deep_view(), i as nat).0,
                outcomes_follow(outcomes@, all_loaded(old(self)@, archives.deep_view(), i as nat).1),
            decreases n - i,
        {
            let name: String = self.meta.inputs.key_at(i).to_owned();
            proof {
                lemma_all_loaded_keeps_meta(old(self)@, archives.deep_view(), i as nat);
            }
            let outcome = if i < archives.len() {
                self.load_input(name.as_str(), &archives[i])
            } else {
                Err(BeadError::InvalidInput(between("No archive found for input '", name.as_str(), "'")))
            };
            outcomes.push((name, outcome));
            i += 1;
            proof {
                let next = all_loaded(old(self)@, archives.deep_view(), i as nat).1;
                assert(next.len() == i) by {
                    lemma_all_loaded_keeps_meta(old(self)@, archives.deep_view(), i as nat);
                }
                assert forall|j: int| 0 <= j < next.len() implies outcome_follows(#[trigger] outcomes@[j], next[j]) by {}
            }
        }
        outcomes
    }

    /// The specification of the input `name`, where it is declared.
    pub fn get_input(&self, name: &str) -> (r: Option<&InputSpec>)
        ensures
            r is Some == has_key(self@.meta.inputs, name@),
            r is Some ==> r->Some_0@ == value_of(self@.meta.inputs, name@),
    {
        self.meta.inputs.get(name)
    }

    /// Every declared input with its specification and whether its slot holds
    /// data, in the order of declaration.
    pub fn list_inputs_with_status(&self) -> (v: Vec<(String, InputSpec, bool)>)
        ensures
            v@.len() == self@.meta.inputs.len(),
            forall|i: int|
                0 <= i < v@.len() ==> {
                    &&& (v@[i].0@, v@[i].1@) == self@.meta.inputs[i]
                    &&& v@[i].2 == has_key(self@.area.slots, self@.meta.inputs[i].0)
                },
    {
        let mut v: Vec<(String, InputSpec, bool)> = Vec::new();
        let mut i: usize = 0;
        while i < self.meta.inputs.len()
            invariant
                i <= self.meta.inputs@.len(),
                v@.len() == i,
                forall|j: int|
                    0 <= j < i ==> {
                        &&& (v@[j].0@, v@[j].1@) == self.meta.inputs@[j]
                        &&& v@[j].2 == has_key(self.input_area.slots@, self.meta.inputs@[j].0)
                    },
            decreases self.meta.inputs@.len() - i,
        {
            let name = self.meta.inputs.key_at(i);
            v.push((name.to_owned(), self.meta.inputs.value_at(i).clone(), self.is_loaded(name)));
            i += 1;
        }
        v
    }

    /// Checks that `archive` may fill the input `name`. All that is asked is
    /// that the input is declared.
    pub fn validate_input_archive(&self, name: &str, archive: &Archive) -> (r: Result<(), BeadError>)
        ensures
            r is Ok <==> has_key(self@.meta.inputs, name@),
            r is Err ==> r->Err_0@.kind == ErrorKind::InvalidInput,
    {
        if self.has_input(name) {
            Ok(())
        } else {
            Err(BeadError::InvalidInput(between("Input '", name, "' does not exist")))
        }
    }

    /// The plan that deletes the workspace from disk: the input area is
    /// unlocked, then the whole directory removed.
    pub fn delete(self) -> (plan: Vec<FsAction>)
        ensures
            plan.deep_view() == seq![
                act(Op::Unlock, input_dir(self@.directory)),
                act(Op::RemoveDirAll, self@.directory),
            ],
    {
        let mut plan: Vec<FsAction> = Vec::new();
        plan.push(FsAction::on(Op::Unlock, join(self.directory.as_str(), layout::INPUT)));
        plan.push(FsAction::on(Op::RemoveDirAll, self.directory));
        assert(plan.deep_view() =~= seq![
            act(Op::Unlock, input_dir(self@.directory)),
            act(Op::RemoveDirAll, self@.directory),
        ]);
        plan
    }
}

impl Clone for InputArea {
    fn clone(&self) -> (c: Self)
        ensures
            c@ == self@,
    {
        let slots = self.slots.clone();
        proof {
            assert forall|i: int| 0 <= i < self.slots@.len() implies slots@[i] == self.slots@[i] by {
                self.slots.lemma_value(i);
                slots.lemma_value(i);
            }
            assert(slots@ =~= self.slots@);
        }
        InputArea { locked: self.locked, slots }
    }
}

impl Clone for Workspace {
    fn clone(&self) -> (c: Self)
        ensures
            c@ == self@,
    {
        let input_map = self.input_map.clone();
        proof {
            assert forall|i: int| 0 <= i < self.input_map@.len() implies input_map@[i] == self.input_map@[i] by {
                self.input_map.lemma_value(i);
                input_map.lemma_value(i);
            }
            assert(input_map@ =~= self.input_map@);
        }
        Workspace {
            directory: self.directory.clone(),
            meta: self.meta.clone(),
            input_map,
            input_area: self.input_area.clone(),
        }
    }
}

} // verus!
