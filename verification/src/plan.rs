//! What the library asks its caller to do to the disk. A plan is a list of
//! actions, to be carried out in order; the first one that fails ends it.

use vstd::prelude::*;
use crate::error::{BeadError, ErrorKind};

verus! {

/// What to do with a path.
#[derive(Clone, Copy, Debug, PartialEq, Eq, Structural)]
pub enum Op {
    /// Make the directory and every missing directory above it.
    CreateDirAll,
    /// Make the directory; the one above it is there.
    CreateDir,
    /// Remove the directory and all that is in it.
    RemoveDirAll,
    /// Remove the file if it is there.
    RemoveFile,
    /// Take the right to write away from everyone, for the directory and for
    /// everything that lies in it.
    Lock,
    /// Give the owner the right to write, for the directory and for everything
    /// that lies in it; nothing where the path is not there.
    Unlock,
    /// Give the owner the right to write to the directory itself, so that
    /// entries can be made in it; what lies in it stays as it is.
    UnlockDir,
    /// Write the metadata record of the workspace to the path.
    SaveMeta,
    /// Write the input name map of the workspace to the path.
    SaveInputMap,
    /// Write the cache of the archive to the path.
    SaveCache,
    /// Copy the entry `entry` of the container at `container` to the file at
    /// the path, making the directories above it first.
    Extract,
}

/// One action on one path. For `Op::Extract`, `container` is the path of the
/// container and `entry` the name of the entry in it; both are empty for every
/// other action.
#[derive(Debug, PartialEq, Eq)]
pub struct FsAction {
    pub op: Op,
    pub path: String,
    pub container: String,
    pub entry: String,
}

/// An action as plain values.
pub struct ActionView {
    pub op: Op,
    pub path: Seq<char>,
    pub container: Seq<char>,
    pub entry: Seq<char>,
}

impl View for FsAction {
    type V = ActionView;

    open spec fn view(&self) -> ActionView {
        ActionView { op: self.op, path: self.path@, container: self.container@, entry: self.entry@ }
    }
}

impl DeepView for FsAction {
    type V = ActionView;

    open spec fn deep_view(&self) -> ActionView {
        self@
    }
}

/// The action `op` on `path`.
pub open spec fn act(op: Op, path: Seq<char>) -> ActionView {
    ActionView { op, path, container: Seq::empty(), entry: Seq::empty() }
}

/// The action that copies the entry `entry` of the container at `container`
/// to `dest`.
pub open spec fn extraction(container: Seq<char>, entry: Seq<char>, dest: Seq<char>) -> ActionView {
    ActionView { op: Op::Extract, path: dest, container, entry }
}

/// `outcome` is what `model` prescribes: the plan it gives, action for action,
/// or an error of the kind it gives.
pub open spec fn plan_follows(outcome: Result<Vec<FsAction>, BeadError>, model: Result<Seq<ActionView>, ErrorKind>) -> bool {
    match model {
        Ok(plan) => outcome is Ok && outcome->Ok_0.deep_view() == plan,
        Err(k) => outcome is Err && outcome->Err_0@.kind == k,
    }
}

impl FsAction {
    /// The action `op` on `path`.
    pub fn on(op: Op, path: String) -> (a: FsAction)
        ensures
            a@ == act(op, path@),
    {
        FsAction { op, path, container: String::new(), entry: String::new() }
    }

    /// The action that copies the entry `entry` of the container at
    /// `container` to `dest`.
    pub fn extract(container: String, entry: String, dest: String) -> (a: FsAction)
        ensures
            a@ == extraction(container@, entry@, dest@),
    {
        FsAction { op: Op::Extract, path: dest, container, entry }
    }
}

impl Clone for FsAction {
    fn clone(&self) -> (c: Self)
        ensures
            c == *self,
    {
        FsAction {
            op: self.op,
            path: self.path.clone(),
            container: self.container.clone(),
            entry: self.entry.clone(),
        }
    }
}

/// Moves the actions of `more` to the end of `plan`.
pub fn extend_plan(plan: &mut Vec<FsAction>, more: Vec<FsAction>)
    ensures
        final(plan).deep_view() == old(plan).deep_view() + more.deep_view(),
{
    let mut more = more;
    plan.append(&mut more);
}

} // verus!
