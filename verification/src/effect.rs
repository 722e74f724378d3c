//! What a plan does to a disk, as far as the library has to know it: which
//! directories and files are there afterwards, and which paths are locked
//! against writing. This is what the caller is held to when it carries
//! a plan out, and what the guarantees about input slots are stated in.

use vstd::prelude::*;
use crate::archive::{
    all_extractions, as_dir_prefix, dir_plan, extractions_under, file_plan, lemma_extract_all_stays_inside,
    lemma_extract_dir_stays_inside, lemma_extract_file_stays_inside, ArchiveView,
};
use crate::paths::lies_within;
use crate::plan::{act, ActionView, Op};
use crate::table::{distinct_keys, has_key};
use crate::workspace::{input_dir, lemma_load_twice, loaded, slot_dir, unloaded, WorkspaceView};

verus! {

/// A disk: the directories on it, the files on it, and the paths that are
/// locked against writing.
pub struct Disk {
    pub dirs: Set<Seq<char>>,
    pub files: Set<Seq<char>>,
    pub locked: Set<Seq<char>>,
}

/// The disk after one action that succeeded.
pub open spec fn after(d: Disk, a: ActionView) -> Disk {
    match a.op {
        Op::CreateDirAll => Disk { dirs: d.dirs.insert(a.path), ..d },
        Op::CreateDir => Disk { dirs: d.dirs.insert(a.path), ..d },
        Op::RemoveDirAll => Disk {
            dirs: Set::new(|p: Seq<char>| d.dirs.contains(p) && !lies_within(p, a.path)),
            files: Set::new(|p: Seq<char>| d.files.contains(p) && !lies_within(p, a.path)),
            locked: Set::new(|p: Seq<char>| d.locked.contains(p) && !lies_within(p, a.path)),
        },
        Op::RemoveFile => Disk { files: d.files.remove(a.path), ..d },
        Op::Lock => Disk { locked: Set::new(|p: Seq<char>| d.locked.contains(p) || lies_within(p, a.path)), ..d },
        Op::Unlock => Disk { locked: Set::new(|p: Seq<char>| d.locked.contains(p) && !lies_within(p, a.path)), ..d },
        Op::UnlockDir => Disk { locked: d.locked.remove(a.path), ..d },
        Op::SaveMeta => Disk { files: d.files.insert(a.path), ..d },
        Op::SaveInputMap => Disk { files: d.files.insert(a.path), ..d },
        Op::SaveCache => Disk { files: d.files.insert(a.path), ..d },
        Op::Extract => Disk { files: d.files.insert(a.path), ..d },
    }
}

/// The disk after a plan that was carried out to its end.
pub open spec fn after_all(d: Disk, plan: Seq<ActionView>) -> Disk
    decreases plan.len(),
{
    if plan.len() == 0 {
        d
    } else {
        after(after_all(d, plan.drop_last()), plan.last())
    }
}

/// Every action of the plan is an extraction.
pub open spec fn only_extracts(plan: Seq<ActionView>) -> bool {
    forall|i: int| 0 <= i < plan.len() ==> (#[trigger] plan[i]).op == Op::Extract
}

/// Carrying out two plans one after the other is carrying out their sum.
pub proof fn lemma_after_sum(d: Disk, first: Seq<ActionView>, second: Seq<ActionView>)
    ensures
        after_all(d, first + second) == after_all(after_all(d, first), second),
    decreases second.len(),
{
    if second.len() > 0 {
        assert((first + second).drop_last() =~= first + second.drop_last());
        lemma_after_sum(d, first, second.drop_last());
    }
}

/// Extractions make files; they add no directory to those that the disk is
/// said to hold, take none away, and lock and unlock nothing.
pub proof fn lemma_extractions_leave_dirs(d: Disk, plan: Seq<ActionView>)
    requires
        only_extracts(plan),
    ensures
        after_all(d, plan).dirs == d.dirs,
        after_all(d, plan).locked == d.locked,
    decreases plan.len(),
{
    if plan.len() > 0 {
        assert forall|i: int| 0 <= i < plan.drop_last().len() implies (#[trigger] plan.drop_last()[i]).op
            == Op::Extract by {}
        lemma_extractions_leave_dirs(d, plan.drop_last());
    }
}

/// Extractions make no file but at the places they name.
pub proof fn lemma_extractions_make_their_files(d: Disk, plan: Seq<ActionView>)
    requires
        only_extracts(plan),
    ensures
        forall|p: Seq<char>|
            after_all(d, plan).files.contains(p) ==> d.files.contains(p) || exists|i: int|
                0 <= i < plan.len() && (#[trigger] plan[i]).path == p,
    decreases plan.len(),
{
    if plan.len() > 0 {
        let front = plan.drop_last();
        assert forall|i: int| 0 <= i < front.len() implies (#[trigger] front[i]).op == Op::Extract by {}
        lemma_extractions_make_their_files(d, front);
        assert forall|p: Seq<char>| after_all(d, plan).files.contains(p) implies d.files.contains(p) || exists|i: int|
            0 <= i < plan.len() && (#[trigger] plan[i]).path == p by {}
    }
}

/// Extracting everything writes no file outside the destination: whatever the
/// entries of the container are called, every file that is on the disk after
/// the plan and was not there before lies within `dest`.
pub proof fn lemma_extract_all_writes_inside(d: Disk, container: Seq<char>, entries: Seq<Seq<char>>, dest: Seq<char>)
    requires
        all_extractions(container, entries, dest) is Some,
    ensures
        forall|p: Seq<char>|
            after_all(d, all_extractions(container, entries, dest)->Some_0).files.contains(p) && !d.files.contains(
                p,
            ) ==> lies_within(p, dest),
{
    let plan = all_extractions(container, entries, dest)->Some_0;
    lemma_all_only_extracts(container, entries, dest);
    lemma_extractions_make_their_files(d, plan);
    lemma_extract_all_stays_inside(container, entries, dest);
    assert forall|p: Seq<char>| after_all(d, plan).files.contains(p) && !d.files.contains(p) implies lies_within(
        p,
        dest,
    ) by {}
}

/// Extracting a directory writes no file outside the destination: whatever
/// the entries of the container are called, every file that is on the disk
/// after the plan and was not there before lies within `dest`.
pub proof fn lemma_extract_dir_writes_inside(
    d: Disk,
    container: Seq<char>,
    entries: Seq<Seq<char>>,
    prefix: Seq<char>,
    dest: Seq<char>,
)
    requires
        extractions_under(container, entries, prefix, dest) is Some,
    ensures
        forall|p: Seq<char>|
            after_all(d, extractions_under(container, entries, prefix, dest)->Some_0).files.contains(p)
                && !d.files.contains(p) ==> lies_within(p, dest),
{
    let plan = extractions_under(container, entries, prefix, dest)->Some_0;
    lemma_dir_plan_only_extracts(container, entries, prefix, dest);
    lemma_extractions_make_their_files(d, plan);
    lemma_extract_dir_stays_inside(container, entries, prefix, dest);
    assert forall|p: Seq<char>| after_all(d, plan).files.contains(p) && !d.files.contains(p) implies lies_within(
        p,
        dest,
    ) by {
        let i = choose|i: int| 0 <= i < plan.len() && (#[trigger] plan[i]).path == p;
        assert(lies_within(plan[i].path, dest));
    }
}

/// Extracting one entry writes no file outside the destination, whatever the
/// destination is.
pub proof fn lemma_extract_file_writes_inside(d: Disk, a: ArchiveView, entry: Seq<char>, dest: Seq<char>)
    requires
        file_plan(a, entry, dest) is Ok,
    ensures
        forall|p: Seq<char>|
            after(d, file_plan(a, entry, dest)->Ok_0).files.contains(p) && !d.files.contains(p) ==> lies_within(
                p,
                dest,
            ),
{
    lemma_extract_file_stays_inside(a, entry, dest);
}

/// What extracting everything lays out is extractions and nothing else.
pub proof fn lemma_all_only_extracts(container: Seq<char>, entries: Seq<Seq<char>>, dest: Seq<char>)
    requires
        all_extractions(container, entries, dest) is Some,
    ensures
        only_extracts(all_extractions(container, entries, dest)->Some_0),
    decreases entries.len(),
{
    if entries.len() > 0 {
        lemma_all_only_extracts(container, entries.drop_last(), dest);
    }
}

/// What extracting a directory lays out is extractions and nothing else.
pub proof fn lemma_dir_plan_only_extracts(
    container: Seq<char>,
    entries: Seq<Seq<char>>,
    prefix: Seq<char>,
    dest: Seq<char>,
)
    requires
        extractions_under(container, entries, prefix, dest) is Some,
    ensures
        only_extracts(extractions_under(container, entries, prefix, dest)->Some_0),
    decreases entries.len(),
{
    if entries.len() > 0 {
        lemma_dir_plan_only_extracts(container, entries.drop_last(), prefix, dest);
    }
}

/// Once the plan of a load is carried out, the directory of the slot is
/// there, the slot and everything that lies in it is locked, and so is the
/// input area: what was loaded cannot be written through the workspace.
pub proof fn lemma_loaded_slot_is_locked(d: Disk, w: WorkspaceView, name: Seq<char>, a: ArchiveView)
    requires
        loaded(w, name, a) is Ok,
        !has_key(w.area.slots, name),
    ensures
        ({
            let disk = after_all(d, loaded(w, name, a)->Ok_0.1);
            &&& disk.dirs.contains(slot_dir(w.directory, name))
            &&& forall|p: Seq<char>| lies_within(p, slot_dir(w.directory, name)) ==> disk.locked.contains(p)
            &&& disk.locked.contains(input_dir(w.directory))
        }),
{
    let slot = slot_dir(w.directory, name);
    let input = input_dir(w.directory);
    assert(input.len() > 0) by {
        reveal_strlit("input");
    }
    let files = dir_plan(a, "data/"@, slot)->Ok_0;
    let head = seq![act(Op::UnlockDir, input), act(Op::CreateDirAll, slot)];
    let tail = seq![act(Op::Lock, slot), act(Op::Lock, input)];
    let plan = loaded(w, name, a)->Ok_0.1;
    lemma_after_sum(d, head + files, tail);
    lemma_after_sum(d, head, files);
    let made = after_all(d, head);
    assert(made.dirs.contains(slot)) by {
        reveal_with_fuel(after_all, 3);
    }
    lemma_dir_plan_only_extracts(a.path, a.facts.container->Ok_0.entries, as_dir_prefix("data/"@), slot);
    lemma_extractions_leave_dirs(made, files);
    let filled = after_all(made, files);
    assert(after_all(filled, tail) == after(after(filled, tail[0]), tail[1])) by {
        reveal_with_fuel(after_all, 3);
    }
}

/// Extractions make a file at every place they name.
pub proof fn lemma_extractions_make_all_their_files(d: Disk, plan: Seq<ActionView>)
    requires
        only_extracts(plan),
    ensures
        forall|i: int| 0 <= i < plan.len() ==> after_all(d, plan).files.contains((#[trigger] plan[i]).path),
        forall|p: Seq<char>| d.files.contains(p) ==> after_all(d, plan).files.contains(p),
    decreases plan.len(),
{
    if plan.len() > 0 {
        let front = plan.drop_last();
        assert forall|i: int| 0 <= i < front.len() implies (#[trigger] front[i]).op == Op::Extract by {
            assert(front[i] == plan[i]);
        }
        lemma_extractions_make_all_their_files(d, front);
        assert(plan[plan.len() - 1].op == Op::Extract);
        assert forall|i: int| 0 <= i < plan.len() implies after_all(d, plan).files.contains(
            (#[trigger] plan[i]).path,
        ) by {
            if i < front.len() {
                assert(front[i] == plan[i]);
            }
        }
    }
}

/// Once the plan of a load is carried out, the slot holds the payload and
/// nothing else was written: every file of the archive under `data/` is there
/// at its place within the slot, and every file that is new on the disk is one
/// of them.
pub proof fn lemma_loaded_slot_holds_payload(d: Disk, w: WorkspaceView, name: Seq<char>, a: ArchiveView)
    requires
        loaded(w, name, a) is Ok,
        !has_key(w.area.slots, name),
    ensures
        ({
            let slot = slot_dir(w.directory, name);
            let files = dir_plan(a, "data/"@, slot)->Ok_0;
            let disk = after_all(d, loaded(w, name, a)->Ok_0.1);
            &&& forall|k: int|
                0 <= k < files.len() ==> disk.files.contains((#[trigger] files[k]).path) && lies_within(
                    files[k].path,
                    slot,
                )
            &&& forall|p: Seq<char>|
                disk.files.contains(p) && !d.files.contains(p) ==> exists|k: int|
                    0 <= k < files.len() && (#[trigger] files[k]).path == p
            &&& loaded(w, name, a)->Ok_0.0.meta == w.meta
        }),
{
    let slot = slot_dir(w.directory, name);
    let input = input_dir(w.directory);
    let files = dir_plan(a, "data/"@, slot)->Ok_0;
    let head = seq![act(Op::UnlockDir, input), act(Op::CreateDirAll, slot)];
    let tail = seq![act(Op::Lock, slot), act(Op::Lock, input)];
    lemma_after_sum(d, head + files, tail);
    lemma_after_sum(d, head, files);
    let made = after_all(d, head);
    assert(made.files == d.files) by {
        reveal_with_fuel(after_all, 3);
    }
    let entries = a.facts.container->Ok_0.entries;
    lemma_dir_plan_only_extracts(a.path, entries, as_dir_prefix("data/"@), slot);
    lemma_extract_dir_stays_inside(a.path, entries, as_dir_prefix("data/"@), slot);
    lemma_extractions_make_all_their_files(made, files);
    lemma_extractions_make_their_files(made, files);
    let filled = after_all(made, files);
    assert(after_all(filled, tail).files == filled.files) by {
        reveal_with_fuel(after_all, 3);
    }
}

/// Once the plan of an unload is carried out, the directory of the slot is
/// gone with all that was in it.
pub proof fn lemma_unloaded_slot_is_gone(d: Disk, w: WorkspaceView, name: Seq<char>)
    requires
        has_key(w.area.slots, name),
    ensures
        ({
            let disk = after_all(d, unloaded(w, name).1);
            forall|p: Seq<char>|
                lies_within(p, slot_dir(w.directory, name)) ==> !disk.dirs.contains(p) && !disk.files.contains(p)
        }),
{
    let slot = slot_dir(w.directory, name);
    let plan = unloaded(w, name).1;
    assert(after_all(d, plan) == after(after(d, plan[0]), plan[1])) by {
        reveal_with_fuel(after_all, 3);
    }
}

/// Loading a slot that holds data already leaves the disk as it is.
pub proof fn lemma_second_load_leaves_disk(d: Disk, w: WorkspaceView, name: Seq<char>, a: ArchiveView)
    requires
        distinct_keys(w.area.slots),
        loaded(w, name, a) is Ok,
    ensures
        ({
            let (after_first, first) = loaded(w, name, a)->Ok_0;
            &&& loaded(after_first, name, a) is Ok
            &&& after_all(after_all(d, first), loaded(after_first, name, a)->Ok_0.1) == after_all(d, first)
        }),
{
    lemma_load_twice(w, name, a);
}

} // verus!
