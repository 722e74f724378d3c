//! One input slot of a workspace, taken by itself.

use vstd::prelude::*;
use crate::archive::{dir_plan, Archive, ArchiveView};
use crate::error::{BeadError, ErrorKind};
use crate::meta::{InputName, InputSpec, InputSpecView};
use crate::paths::join;
use crate::plan::{act, extend_plan, ActionView, FsAction, Op};
use crate::text::same_text;
use crate::workspace::slot_dir;

verus! {

/// An input slot: its name, the bead it is pinned to, whether its directory is
/// there, and where that directory lies. `loaded` says what the disk says: it
/// is given when the value is made and follows every load and unload.
#[derive(Debug)]
pub struct Input {
    pub name: InputName,
    pub spec: InputSpec,
    pub loaded: bool,
    pub path: String,
}

/// An input slot as plain values.
pub struct InputView {
    pub name: Seq<char>,
    pub spec: InputSpecView,
    pub loaded: bool,
    pub path: Seq<char>,
}

impl View for Input {
    type V = InputView;

    open spec fn view(&self) -> InputView {
        InputView { name: self.name@, spec: self.spec@, loaded: self.loaded, path: self.path@ }
    }
}

/// A step of a slot: the slot after it and the plan that goes with it, or the
/// kind of error that refused it.
pub type SlotStep = Result<(InputView, Seq<ActionView>), ErrorKind>;

/// The slot went from `before` to `after` and answered `outcome` as `model`
/// prescribes. A refused step leaves the slot as it was.
pub open spec fn slot_follows(
    before: InputView,
    after: InputView,
    outcome: Result<Vec<FsAction>, BeadError>,
    model: SlotStep,
) -> bool {
    match model {
        Ok((s, plan)) => after == s && outcome is Ok && outcome->Ok_0.deep_view() == plan,
        Err(k) => after == before && outcome is Err && outcome->Err_0@.kind == k,
    }
}

/// Loading a slot: nothing where it is loaded; refused where the payload
/// cannot be laid out; else the directory is made, the payload extracted into
/// it, and the directory locked with all that is in it.
pub open spec fn slot_loaded(s: InputView, a: ArchiveView) -> SlotStep {
    if s.loaded {
        Ok((s, Seq::empty()))
    } else {
        match dir_plan(a, "data/"@, s.path) {
            Err(k) => Err(k),
            Ok(files) => Ok(
                (
                    InputView { loaded: true, ..s },
                    seq![act(Op::CreateDirAll, s.path)] + files + seq![act(Op::Lock, s.path)],
                ),
            ),
        }
    }
}

/// Unloading a slot: nothing where it is not loaded; else the directory is
/// unlocked and removed.
pub open spec fn slot_unloaded(s: InputView) -> (InputView, Seq<ActionView>) {
    if s.loaded {
        (InputView { loaded: false, ..s }, seq![act(Op::Unlock, s.path), act(Op::RemoveDirAll, s.path)])
    } else {
        (s, Seq::empty())
    }
}

/// Moving a slot to `spec`: refused where the payload cannot be laid out; else
/// the slot is unloaded, pinned to `spec`, and loaded again.
pub open spec fn slot_updated(s: InputView, spec: InputSpecView, a: ArchiveView) -> SlotStep {
    let (emptied, unloading) = slot_unloaded(s);
    match slot_loaded(InputView { spec, ..emptied }, a) {
        Err(k) => Err(k),
        Ok((after, loading)) => Ok((after, unloading + loading)),
    }
}

impl Input {
    /// The slot `name` of the workspace at `workspace_dir`, pinned to `spec`;
    /// `exists` says whether the directory of the slot is there.
    pub fn new(name: InputName, spec: InputSpec, workspace_dir: &str, exists: bool) -> (s: Input)
        ensures
            s@ == (InputView { name: name@, spec: spec@, loaded: exists, path: slot_dir(workspace_dir@, name@) }),
    {
        let path = join(join(workspace_dir, "input").as_str(), name.as_str());
        Input { name, spec, loaded: exists, path }
    }

    /// Loads the slot from `archive`.
    pub fn load(&mut self, archive: &Archive) -> (r: Result<Vec<FsAction>, BeadError>)
        ensures
            slot_follows(old(self)@, final(self)@, r, slot_loaded(old(self)@, archive@)),
    {
        let mut plan: Vec<FsAction> = Vec::new();
        if self.loaded {
            assert(plan.deep_view() =~= Seq::<ActionView>::empty());
            return Ok(plan);
        }
        let files = archive.unpack_data_to(self.path.as_str())?;
        plan.push(FsAction::on(Op::CreateDirAll, self.path.clone()));
        let ghost head = plan.deep_view();
        let ghost middle = files.deep_view();
        extend_plan(&mut plan, files);
        plan.push(FsAction::on(Op::Lock, self.path.clone()));
        self.loaded = true;
        proof {
            assert(head =~= seq![act(Op::CreateDirAll, self.path@)]);
            assert(plan.deep_view() =~= head + middle + seq![act(Op::Lock, self.path@)]);
        }
        Ok(plan)
    }

    /// Unloads the slot.
    pub fn unload(&mut self) -> (plan: Vec<FsAction>)
        ensures
            final(self)@ == slot_unloaded(old(self)@).0,
            plan.deep_view() == slot_unloaded(old(self)@).1,
    {
        let mut plan: Vec<FsAction> = Vec::new();
        if self.loaded {
            plan.push(FsAction::on(Op::Unlock, self.path.clone()));
            plan.push(FsAction::on(Op::RemoveDirAll, self.path.clone()));
            self.loaded = false;
        }
        plan
    }

    /// Moves the slot to `new_spec` and loads it from `archive`.
    pub fn update(&mut self, new_spec: InputSpec, archive: &Archive) -> (r: Result<Vec<FsAction>, BeadError>)
        ensures
            slot_follows(old(self)@, final(self)@, r, slot_updated(old(self)@, new_spec@, archive@)),
    {
        // nothing is changed unless the load that ends the update can be laid out
        if let Err(e) = archive.unpack_data_to(self.path.as_str()) {
            return Err(e);
        }
        let mut plan = self.unload();
        self.spec = new_spec;
        match self.load(archive) {
            Ok(files) => {
                extend_plan(&mut plan, files);
                Ok(plan)
            },
            Err(e) => {
                proof {
                    assert(false);
                }
                Err(e)
            },
        }
    }

    /// Whether the slot is pinned to the content that `spec` names.
    pub fn matches_spec(&self, spec: &InputSpec) -> (b: bool)
        ensures
            b == (self@.spec.content_id == spec@.content_id),
    {
        same_text(self.spec.content_id.as_str(), spec.content_id.as_str())
    }

    /// Whether `latest_spec` names another freeze than the one the slot is
    /// pinned to.
    pub fn needs_update(&self, latest_spec: &InputSpec) -> (b: bool)
        ensures
            b == (self@.spec.freeze_time != latest_spec@.freeze_time),
    {
        !same_text(self.spec.freeze_time.as_str(), latest_spec.freeze_time.as_str())
    }
}

impl Clone for Input {
    fn clone(&self) -> (c: Self)
        ensures
            c@ == self@,
    {
        Input { name: self.name.clone(), spec: self.spec.clone(), loaded: self.loaded, path: self.path.clone() }
    }
}

} // verus!
