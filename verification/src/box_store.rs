//! Boxes: directories that hold archives, and the questions asked of them.
//!
//! A `Box` holds the listing of its directory as the caller read it. Every
//! question is answered from that listing; to ask about the disk as it is now,
//! the caller reads the directory again and hands the new listing in.

use vstd::prelude::*;
use glob::Pattern;
use regex::Regex;
use crate::archive::{
    archive_file_name, content_id_of, freeze_time_of, meta_of, opened, Archive, ArchiveView, FactsView, FileFacts,
};
use crate::error::{follows, BeadError, ErrorKind};
use crate::paths::{file_name, file_name_of, join, joined};
use crate::text::{catenate, chars_of, ends_with, has_prefix, has_suffix, same_text, str_starts_with, string_of};
use crate::timestamp::{parse_timestamp, parsed, Instant};
use crate::workspace::{Workspace, WorkspaceView};
use vstd::utf8::encode_utf8;

verus! {

/// Whether `glob` accepts the text as a pattern.
pub uninterp spec fn glob_valid(pattern: Seq<char>) -> bool;

/// Whether the text matches the pattern, as `glob` matches with its default
/// options.
pub uninterp spec fn glob_matches(pattern: Seq<char>, text: Seq<char>) -> bool;

/// What `regex` finds for a pattern in a text: `None` where the pattern does
/// not compile, or where the text matches and the group took no part in the
/// match; `Some(None)` where the text does not match; and `Some(Some(g))`
/// where it matches and the group matched `g`.
pub uninterp spec fn regex_capture(pattern: Seq<char>, text: Seq<char>, group: nat) -> Option<Option<Seq<char>>>;

/// `Pattern::new` of `glob`: tells whether the text compiles as a pattern.
#[verifier::external_body]
fn pattern_compiles(pattern: &str) -> (b: bool)
    ensures
        b == glob_valid(pattern@),
{
    Pattern::new(pattern).is_ok()
}

/// `Pattern::matches` of `glob`, on the pattern compiled from the text given.
/// The claim is only that the answer depends on nothing but the two texts.
#[verifier::external_body]
fn pattern_matches(pattern: &str, text: &str) -> (b: bool)
    requires
        glob_valid(pattern@),
    ensures
        b == glob_matches(pattern@, text@),
{
    match Pattern::new(pattern) {
        Ok(compiled) => compiled.matches(text),
        Err(_) => false,
    }
}

/// The file names of archives that carry a timestamp: a name, `_`, eight
/// digits, `T`, digits and signs, `.zip`. The name is the shortest that fits.
pub const STAMPED_NAME: &'static str = "^(.+?)_\\d{8}T[\\d+-]+\\.zip$";

/// `Regex::new`, `Regex::captures` and `Captures::get` of `regex`, in that
/// order, for the one pattern that the library uses. The claim is only that
/// the answer depends on nothing but the text and the number of the group.
#[verifier::external_body]
fn capture(pattern: &str, text: &str, group: usize) -> (r: Option<Option<String>>)
    requires
        pattern@ == STAMPED_NAME@,
    ensures
        match regex_capture(pattern@, text@, group as nat) {
            None => r is None,
            Some(None) => r == Some(None::<String>),
            Some(Some(g)) => r is Some && r->Some_0 is Some && r->Some_0->Some_0@ == g,
        },
{
    let compiled = Regex::new(pattern).ok()?;
    match compiled.captures(text) {
        Some(found) => Some(Some(found.get(group)?.as_str().to_string())),
        None => Some(None),
    }
}

/// The bead name that a file name gives, once the pattern for stamped names
/// has been tried on it: the name it captured; else the file name without
/// `.zip`; else nothing.
pub open spec fn name_from_capture(file: Seq<char>, found: Option<Option<Seq<char>>>) -> Option<Seq<char>> {
    match found {
        None => None,
        Some(Some(name)) => Some(name),
        Some(None) => if has_suffix(file, ".zip"@) {
            Some(file.take(file.len() - 4))
        } else {
            None
        },
    }
}

/// The bead name that the file name of `path` gives.
pub open spec fn bead_name_in_path(path: Seq<char>) -> Option<Seq<char>> {
    match file_name_of(path) {
        None => None,
        Some(file) => name_from_capture(file, regex_capture(STAMPED_NAME@, file, 1)),
    }
}

/// One file of a box directory: where it lies and what is known of it.
#[derive(Debug)]
pub struct BoxEntry {
    pub path: String,
    pub facts: FileFacts,
}

/// An entry as plain values.
pub struct EntryView {
    pub path: Seq<char>,
    pub facts: FactsView,
}

impl View for BoxEntry {
    type V = EntryView;

    open spec fn view(&self) -> EntryView {
        EntryView { path: self.path@, facts: self.facts@ }
    }
}

impl DeepView for BoxEntry {
    type V = EntryView;

    open spec fn deep_view(&self) -> EntryView {
        self@
    }
}

/// What the caller found at the location of a box: whether anything is there,
/// whether it is a directory, and the files in it, in the order of their names.
#[derive(Debug)]
pub struct DirScan {
    pub exists: bool,
    pub is_dir: bool,
    pub entries: Vec<BoxEntry>,
}

/// A named place that holds archives.
#[derive(Debug)]
pub struct Box {
    pub name: String,
    pub location: String,
    pub scan: DirScan,
}

/// A box as plain values.
pub struct BoxView {
    pub name: Seq<char>,
    pub location: Seq<char>,
    pub exists: bool,
    pub is_dir: bool,
    pub entries: Seq<EntryView>,
}

impl View for Box {
    type V = BoxView;

    open spec fn view(&self) -> BoxView {
        BoxView {
            name: self.name@,
            location: self.location@,
            exists: self.scan.exists,
            is_dir: self.scan.is_dir,
            entries: self.scan.entries.deep_view(),
        }
    }
}

impl DeepView for Box {
    type V = BoxView;

    open spec fn deep_view(&self) -> BoxView {
        self@
    }
}

/// What is wanted of an archive. Where the freeze time is asked about, `now`
/// stands for the freeze time of an archive that does not tell its own.
#[derive(Debug)]
pub enum Criterion {
    /// Its metadata record can be had and names this kind.
    Kind(String),
    /// Its content id is known and starts with this text.
    ContentIdPrefix(String),
    /// It was frozen at `cutoff` or before.
    FrozenAtOrBefore { cutoff: Instant, now: Instant },
    /// It was frozen after `cutoff`.
    FrozenAfter { cutoff: Instant, now: Instant },
}

/// A criterion as plain values.
pub enum Wanted {
    Kind(Seq<char>),
    ContentIdPrefix(Seq<char>),
    FrozenAtOrBefore { cutoff: Instant, now: Instant },
    FrozenAfter { cutoff: Instant, now: Instant },
}

impl View for Criterion {
    type V = Wanted;

    open spec fn view(&self) -> Wanted {
        match self {
            Criterion::Kind(k) => Wanted::Kind(k@),
            Criterion::ContentIdPrefix(p) => Wanted::ContentIdPrefix(p@),
            Criterion::FrozenAtOrBefore { cutoff, now } => Wanted::FrozenAtOrBefore { cutoff: *cutoff, now: *now },
            Criterion::FrozenAfter { cutoff, now } => Wanted::FrozenAfter { cutoff: *cutoff, now: *now },
        }
    }
}

/// The archive meets the criterion.
pub open spec fn fits(a: ArchiveView, wanted: Wanted) -> bool {
    match wanted {
        Wanted::Kind(k) => meta_of(a.facts) is Ok && meta_of(a.facts)->Ok_0.kind == k,
        Wanted::ContentIdPrefix(p) => content_id_of(a.facts) is Some && has_prefix(content_id_of(a.facts)->Some_0, p),
        Wanted::FrozenAtOrBefore { cutoff, now } => freeze_time_of(a.facts, now).le(cutoff),
        Wanted::FrozenAfter { cutoff, now } => !freeze_time_of(a.facts, now).le(cutoff),
    }
}

/// Those of `beads` that meet the criterion, in their order.
pub open spec fn selected(beads: Seq<ArchiveView>, wanted: Wanted) -> Seq<ArchiveView> {
    beads.filter(|a: ArchiveView| fits(a, wanted))
}

/// The first of `beads`, if there is any.
pub open spec fn first_of(beads: Seq<ArchiveView>) -> Option<ArchiveView> {
    if beads.len() > 0 {
        Some(beads[0])
    } else {
        None
    }
}

/// The path names a file that lies in the directory `location` itself, not
/// deeper and not elsewhere: it is the location joined with its file name.
pub open spec fn lies_in(path: Seq<char>, location: Seq<char>) -> bool {
    file_name_of(path) is Some && path == joined(location, file_name_of(path)->Some_0)
}

/// What a scan keeps of one entry, given whether its path matched the pattern:
/// the archive it opens as, where it matched, it lies in the directory of the
/// box, its file name gives a bead name, and the file is a container that can
/// be opened.
pub open spec fn kept(e: EntryView, matched: bool, box_name: Seq<char>, location: Seq<char>) -> Option<
    ArchiveView,
> {
    match opened(e.path, box_name, Some(e.facts)) {
        Ok(a) if matched && lies_in(e.path, location) && e.facts.container is Ok => Some(a),
        _ => None,
    }
}

/// The archives among `entries` whose path matches `pattern` and which a scan
/// keeps, in the order of the entries.
pub open spec fn beads_matching(
    entries: Seq<EntryView>,
    pattern: Seq<char>,
    box_name: Seq<char>,
    location: Seq<char>,
) -> Seq<ArchiveView>
    decreases entries.len(),
{
    if entries.len() == 0 {
        Seq::empty()
    } else {
        let rest = beads_matching(entries.drop_last(), pattern, box_name, location);
        let e = entries.last();
        match kept(e, glob_matches(pattern, e.path), box_name, location) {
            Some(a) => rest.push(a),
            None => rest,
        }
    }
}

/// The pattern for every archive of the box at `location`.
pub open spec fn all_pattern(location: Seq<char>) -> Seq<char> {
    joined(location, "*.zip"@)
}

/// The pattern for the archives of the bead `name` in the box at `location`.
pub open spec fn name_pattern(location: Seq<char>, name: Seq<char>) -> Seq<char> {
    joined(location, name + "_*.zip"@)
}

/// What a scan with `pattern` gives: an error where the pattern does not
/// compile, else the archives that match it.
pub open spec fn scanned(b: BoxView, pattern: Seq<char>) -> Result<Seq<ArchiveView>, ErrorKind> {
    if !glob_valid(pattern) {
        Err(ErrorKind::Io)
    } else {
        Ok(beads_matching(b.entries, pattern, b.name, b.location))
    }
}

/// `beads` without every archive whose path an earlier one has already.
pub open spec fn first_of_each_path(beads: Seq<ArchiveView>) -> Seq<ArchiveView>
    decreases beads.len(),
{
    if beads.len() == 0 {
        Seq::empty()
    } else {
        let rest = first_of_each_path(beads.drop_last());
        if has_path(beads.drop_last(), beads.last().path) {
            rest
        } else {
            rest.push(beads.last())
        }
    }
}

/// Some archive of `beads` lies at `path`.
pub open spec fn has_path(beads: Seq<ArchiveView>, path: Seq<char>) -> bool {
    exists|i: int| 0 <= i < beads.len() && (#[trigger] beads[i]).path == path
}

/// The freeze time of an archive.
pub open spec fn frozen_at(a: ArchiveView, now: Instant) -> Instant {
    freeze_time_of(a.facts, now)
}

/// The archive of `beads` that was frozen last; of several frozen at the same
/// instant, the one that stands last.
pub open spec fn latest_of(beads: Seq<ArchiveView>, now: Instant) -> Option<ArchiveView>
    decreases beads.len(),
{
    if beads.len() == 0 {
        None
    } else {
        match latest_of(beads.drop_last(), now) {
            Some(best) if !frozen_at(best, now).le(frozen_at(beads.last(), now)) => Some(best),
            _ => Some(beads.last()),
        }
    }
}

/// The archive of `beads` whose file was modified last; of several modified at
/// the same instant, the one that stands first. Archives whose time of
/// modification is not known are passed over.
pub open spec fn newest_of(beads: Seq<ArchiveView>) -> Option<ArchiveView>
    decreases beads.len(),
{
    if beads.len() == 0 {
        None
    } else {
        let last = beads.last();
        match newest_of(beads.drop_last()) {
            Some(best) => if last.facts.modified is Some && !last.facts.modified->Some_0.le(
                best.facts.modified->Some_0,
            ) {
                Some(last)
            } else {
                Some(best)
            },
            None => if last.facts.modified is Some {
                Some(last)
            } else {
                None
            },
        }
    }
}

/// A question asked of a box.
pub enum Query {
    /// Every archive.
    All,
    /// The archives of the bead with this name.
    Named(Seq<char>),
    /// The archives of this kind.
    OfKind(Seq<char>),
    /// The archives whose content id starts with this text.
    WithContentId(Seq<char>),
    /// The archives that the reference names in any of the three ways, each
    /// path once.
    Ref(Seq<char>),
}

/// The answer of a box to a question.
pub open spec fn answer(b: BoxView, q: Query) -> Result<Seq<ArchiveView>, ErrorKind> {
    match q {
        Query::All => scanned(b, all_pattern(b.location)),
        Query::Named(name) => scanned(b, name_pattern(b.location, name)),
        Query::OfKind(kind) => match scanned(b, all_pattern(b.location)) {
            Ok(all) => Ok(selected(all, Wanted::Kind(kind))),
            Err(k) => Err(k),
        },
        Query::WithContentId(prefix) => match scanned(b, all_pattern(b.location)) {
            Ok(all) => Ok(selected(all, Wanted::ContentIdPrefix(prefix))),
            Err(k) => Err(k),
        },
        Query::Ref(reference) => match scanned(b, name_pattern(b.location, reference)) {
            Err(k) => Err(k),
            Ok(named) => match scanned(b, all_pattern(b.location)) {
                Err(k) => Err(k),
                Ok(all) => Ok(
                    first_of_each_path(
                        named + selected(all, Wanted::Kind(reference)) + selected(
                            all,
                            Wanted::ContentIdPrefix(reference),
                        ),
                    ),
                ),
            },
        },
    }
}

/// The answers of the boxes to a question, one after the other; a box that
/// fails to answer adds nothing.
pub open spec fn union_answer(boxes: Seq<BoxView>, q: Query) -> Seq<ArchiveView>
    decreases boxes.len(),
{
    if boxes.len() == 0 {
        Seq::empty()
    } else {
        union_answer(boxes.drop_last(), q) + match answer(boxes.last(), q) {
            Ok(beads) => beads,
            Err(_) => Seq::empty(),
        }
    }
}

/// Where storing the workspace `w` at `freeze_time` puts the archive: refused
/// with `InvalidWorkspace` where the directory of the workspace gives no name,
/// and with `AlreadyExists` where the listing has a file at that place already.
pub open spec fn stored(b: BoxView, w: WorkspaceView, freeze_time: Seq<char>) -> Result<Seq<char>, ErrorKind> {
    match file_name_of(w.directory) {
        None => Err(ErrorKind::InvalidWorkspace),
        Some(name) => {
            let path = joined(b.location, archive_file_name(name, freeze_time));
            if exists|i: int| 0 <= i < b.entries.len() && (#[trigger] b.entries[i]).path == path {
                Err(ErrorKind::AlreadyExists)
            } else {
                Ok(path)
            }
        },
    }
}

/// The archives of the bead `name` frozen on one side of the instant that
/// `timestamp` denotes: refused with `InvalidInput` where the timestamp cannot
/// be parsed.
pub open spec fn in_window(b: BoxView, name: Seq<char>, timestamp: Seq<char>, now: Instant, after: bool) -> Result<
    Seq<ArchiveView>,
    ErrorKind,
> {
    match parsed(encode_utf8(timestamp)) {
        None => Err(ErrorKind::InvalidInput),
        Some(cutoff) => match scanned(b, name_pattern(b.location, name)) {
            Err(k) => Err(k),
            Ok(named) => Ok(
                selected(
                    named,
                    if after {
                        Wanted::FrozenAfter { cutoff, now }
                    } else {
                        Wanted::FrozenAtOrBefore { cutoff, now }
                    },
                ),
            ),
        },
    }
}

/// `outcome` is what `model` prescribes: the archives it gives, one for one,
/// or an error of the kind it gives.
pub open spec fn beads_follow(outcome: Result<Vec<Archive>, BeadError>, model: Result<Seq<ArchiveView>, ErrorKind>) -> bool {
    match model {
        Ok(beads) => outcome is Ok && outcome->Ok_0.deep_view() == beads,
        Err(k) => outcome is Err && outcome->Err_0@.kind == k,
    }
}

/// `outcome` is what `model` prescribes: the archive it picks, if it picks
/// one, or an error of the kind it gives.
pub open spec fn pick_follows(outcome: Result<Option<Archive>, BeadError>, model: Result<Option<ArchiveView>, ErrorKind>) -> bool {
    match model {
        Ok(Some(a)) => outcome is Ok && outcome->Ok_0 is Some && outcome->Ok_0->Some_0@ == a,
        Ok(None) => outcome is Ok && outcome->Ok_0 is None,
        Err(k) => outcome is Err && outcome->Err_0@.kind == k,
    }
}

/// One more element of a sequence either joins what was kept of those before
/// it or does not.
pub proof fn lemma_filter_step<A>(s: Seq<A>, i: int, pred: spec_fn(A) -> bool)
    requires
        0 <= i < s.len(),
    ensures
        s.take(i + 1).filter(pred) == if pred(s[i]) {
            s.take(i).filter(pred).push(s[i])
        } else {
            s.take(i).filter(pred)
        },
{
    reveal(Seq::filter);
    assert(s.take(i + 1).drop_last() =~= s.take(i));
}

/// Taking out repeated paths loses no path and adds none, and leaves no path
/// twice.
pub proof fn lemma_first_of_each_path(beads: Seq<ArchiveView>)
    ensures
        forall|p: Seq<char>| has_path(first_of_each_path(beads), p) == has_path(beads, p),
        forall|i: int, j: int|
            0 <= i < j < first_of_each_path(beads).len() ==> first_of_each_path(beads)[i].path
                != first_of_each_path(beads)[j].path,
        forall|i: int|
            0 <= i < first_of_each_path(beads).len() ==> beads.contains(#[trigger] first_of_each_path(beads)[i]),
    decreases beads.len(),
{
    if beads.len() > 0 {
        let front = beads.drop_last();
        let last = beads.last();
        let rest = first_of_each_path(front);
        let out = first_of_each_path(beads);
        lemma_first_of_each_path(front);
        assert forall|p: Seq<char>| has_path(out, p) == has_path(beads, p) by {
            if has_path(beads, p) {
                let i = choose|i: int| 0 <= i < beads.len() && (#[trigger] beads[i]).path == p;
                if i < front.len() {
                    assert(front[i].path == p);
                    assert(has_path(front, p));
                    let k = choose|k: int| 0 <= k < rest.len() && (#[trigger] rest[k]).path == p;
                    assert(out[k].path == p);
                } else {
                    if !has_path(front, last.path) {
                        assert(out[out.len() - 1].path == p);
                    }
                }
            }
            if has_path(out, p) {
                let k = choose|k: int| 0 <= k < out.len() && (#[trigger] out[k]).path == p;
            }
        }
        assert forall|i: int, j: int| 0 <= i < j < out.len() implies out[i].path != out[j].path by {}
        assert forall|i: int| 0 <= i < out.len() implies beads.contains(#[trigger] out[i]) by {}
    }
}

/// What a reference finds: every archive that it names as a bead name, every
/// archive of the kind it names, and every archive whose content id starts with
/// it, all together and no path twice; and nothing else.
pub proof fn lemma_ref_finds_all(b: BoxView, reference: Seq<char>)
    requires
        answer(b, Query::Ref(reference)) is Ok,
    ensures
        answer(b, Query::Named(reference)) is Ok,
        answer(b, Query::All) is Ok,
        ({
            let found = answer(b, Query::Ref(reference))->Ok_0;
            let named = answer(b, Query::Named(reference))->Ok_0;
            let all = answer(b, Query::All)->Ok_0;
            &&& forall|i: int| 0 <= i < named.len() ==> has_path(found, (#[trigger] named[i]).path)
            &&& forall|i: int|
                0 <= i < all.len() && fits(#[trigger] all[i], Wanted::Kind(reference)) ==> has_path(
                    found,
                    all[i].path,
                )
            &&& forall|i: int|
                0 <= i < all.len() && fits(#[trigger] all[i], Wanted::ContentIdPrefix(reference)) ==> has_path(
                    found,
                    all[i].path,
                )
            &&& forall|i: int, j: int| 0 <= i < j < found.len() ==> found[i].path != found[j].path
            &&& forall|i: int|
                0 <= i < found.len() ==> {
                    ||| named.contains(#[trigger] found[i])
                    ||| (all.contains(found[i]) && fits(found[i], Wanted::Kind(reference)))
                    ||| (all.contains(found[i]) && fits(found[i], Wanted::ContentIdPrefix(reference)))
                }
        }),
{
    let named = answer(b, Query::Named(reference))->Ok_0;
    let all = answer(b, Query::All)->Ok_0;
    let by_kind = |a: ArchiveView| fits(a, Wanted::Kind(reference));
    let by_id = |a: ArchiveView| fits(a, Wanted::ContentIdPrefix(reference));
    let kinds = all.filter(by_kind);
    let ids = all.filter(by_id);
    let cat = named + kinds + ids;
    let found = first_of_each_path(cat);
    lemma_first_of_each_path(cat);
    assert forall|i: int| 0 <= i < named.len() implies has_path(found, (#[trigger] named[i]).path) by {
        assert(cat[i] == named[i]);
        assert(has_path(cat, named[i].path));
    }
    assert forall|i: int| 0 <= i < all.len() && fits(#[trigger] all[i], Wanted::Kind(reference)) implies has_path(
        found,
        all[i].path,
    ) by {
        all.lemma_filter_contains(by_kind, i);
        let j = choose|j: int| 0 <= j < kinds.len() && kinds[j] == all[i];
        assert(cat[named.len() + j] == all[i]);
        assert(has_path(cat, all[i].path));
    }
    assert forall|i: int|
        0 <= i < all.len() && fits(#[trigger] all[i], Wanted::ContentIdPrefix(reference)) implies has_path(
        found,
        all[i].path,
    ) by {
        all.lemma_filter_contains(by_id, i);
        let j = choose|j: int| 0 <= j < ids.len() && ids[j] == all[i];
        assert(cat[named.len() + kinds.len() + j] == all[i]);
        assert(has_path(cat, all[i].path));
    }
    assert forall|i: int| 0 <= i < found.len() implies {
        ||| named.contains(#[trigger] found[i])
        ||| (all.contains(found[i]) && fits(found[i], Wanted::Kind(reference)))
        ||| (all.contains(found[i]) && fits(found[i], Wanted::ContentIdPrefix(reference)))
    } by {
        let j = choose|j: int| 0 <= j < cat.len() && cat[j] == found[i];
        if named.len() <= j < named.len() + kinds.len() {
            let k = j - named.len();
            all.lemma_filter_pred(by_kind, k);
            all.lemma_filter_contains_rev(by_kind, found[i]);
        } else if j >= named.len() + kinds.len() {
            let k = j - named.len() - kinds.len();
            all.lemma_filter_pred(by_id, k);
            all.lemma_filter_contains_rev(by_id, found[i]);
        }
    }
}

/// The archive frozen last is one of the archives, and none was frozen later.
pub proof fn lemma_latest_is_last(beads: Seq<ArchiveView>, now: Instant)
    requires
        beads.len() > 0,
    ensures
        latest_of(beads, now) is Some,
        beads.contains(latest_of(beads, now)->Some_0),
        forall|i: int|
            0 <= i < beads.len() ==> frozen_at(#[trigger] beads[i], now).le(
                frozen_at(latest_of(beads, now)->Some_0, now),
            ),
    decreases beads.len(),
{
    let front = beads.drop_last();
    if front.len() > 0 {
        lemma_latest_is_last(front, now);
        let best = latest_of(front, now)->Some_0;
        assert forall|i: int| 0 <= i < beads.len() implies frozen_at(#[trigger] beads[i], now).le(
            frozen_at(latest_of(beads, now)->Some_0, now),
        ) by {
            if i < front.len() {
                assert(front[i] == beads[i]);
            }
        }
    }
}

/// The archive modified last is one of the archives, its time of modification
/// is known, and none with a known time was modified later.
pub proof fn lemma_newest_is_newest(beads: Seq<ArchiveView>)
    ensures
        newest_of(beads) is Some <==> exists|i: int| 0 <= i < beads.len() && (#[trigger] beads[i]).facts.modified is Some,
        newest_of(beads) is Some ==> {
            &&& beads.contains(newest_of(beads)->Some_0)
            &&& newest_of(beads)->Some_0.facts.modified is Some
            &&& forall|i: int|
                0 <= i < beads.len() && (#[trigger] beads[i]).facts.modified is Some
                    ==> beads[i].facts.modified->Some_0.le(newest_of(beads)->Some_0.facts.modified->Some_0)
        },
    decreases beads.len(),
{
    if beads.len() > 0 {
        let front = beads.drop_last();
        let last = beads.last();
        lemma_newest_is_newest(front);
        if newest_of(front) is Some {
            let best = newest_of(front)->Some_0;
            assert forall|i: int| 0 <= i < beads.len() && (#[trigger] beads[i]).facts.modified is Some implies beads[i].facts.modified->Some_0.le(
            newest_of(beads)->Some_0.facts.modified->Some_0) by {
                if i < front.len() {
                    assert(front[i] == beads[i]);
                }
            }
        } else {
            assert forall|i: int| 0 <= i < front.len() implies (#[trigger] beads[i]).facts.modified is None by {
                assert(front[i] == beads[i]);
            }
        }
    }
}

impl Clone for BoxEntry {
    fn clone(&self) -> (c: Self)
        ensures
            c@ == self@,
    {
        BoxEntry { path: self.path.clone(), facts: self.facts.clone() }
    }
}

/// A question asked of a box, with the text it asks about.
#[derive(Clone, Copy, Debug)]
pub enum Ask<'a> {
    All,
    Named(&'a str),
    OfKind(&'a str),
    WithContentId(&'a str),
    Ref(&'a str),
}

impl<'a> View for Ask<'a> {
    type V = Query;

    open spec fn view(&self) -> Query {
        match self {
            Ask::All => Query::All,
            Ask::Named(n) => Query::Named(n@),
            Ask::OfKind(k) => Query::OfKind(k@),
            Ask::WithContentId(p) => Query::WithContentId(p@),
            Ask::Ref(r) => Query::Ref(r@),
        }
    }
}

/// Whether the archive meets the criterion.
pub fn meets(a: &Archive, c: &Criterion) -> (b: bool)
    ensures
        b == fits(a@, c@),
{
    match c {
        Criterion::Kind(k) => match a.kind() {
            Ok(kind) => same_text(kind.as_str(), k.as_str()),
            Err(_) => false,
        },
        Criterion::ContentIdPrefix(p) => match a.content_id() {
            Some(id) => str_starts_with(id.as_str(), p.as_str()),
            None => false,
        },
        Criterion::FrozenAtOrBefore { cutoff, now } => a.freeze_time(*now).at_or_before(cutoff),
        Criterion::FrozenAfter { cutoff, now } => a.freeze_time(*now).after(cutoff),
    }
}

/// Those of `beads` that meet the criterion, in their order.
pub fn select(beads: &Vec<Archive>, c: &Criterion) -> (r: Vec<Archive>)
    ensures
        r.deep_view() == selected(beads.deep_view(), c@),
{
    let mut r: Vec<Archive> = Vec::new();
    let mut i: usize = 0;
    let ghost pred = |a: ArchiveView| fits(a, c@);
    assert(beads.deep_view().take(0).filter(pred) =~= Seq::<ArchiveView>::empty()) by {
        reveal(Seq::filter);
    }
    while i < beads.len()
        invariant
            i <= beads@.len(),
            pred == |a: ArchiveView| fits(a, c@),
            r.deep_view() == beads.deep_view().take(i as int).filter(pred),
        decreases beads@.len() - i,
    {
        proof {
            lemma_filter_step(beads.deep_view(), i as int, pred);
        }
        if meets(&beads[i], c) {
            r.push(beads[i].clone());
        }
        i += 1;
    }
    assert(beads.deep_view().take(i as int) =~= beads.deep_view());
    r
}

/// Moves the archives of `more` to the end of `all`.
pub fn append_beads(all: &mut Vec<Archive>, more: Vec<Archive>)
    ensures
        final(all).deep_view() == old(all).deep_view() + more.deep_view(),
{
    let mut more = more;
    all.append(&mut more);
}

/// Takes out every archive whose path an earlier one has already.
pub fn distinct_paths(beads: Vec<Archive>) -> (r: Vec<Archive>)
    ensures
        r.deep_view() == first_of_each_path(beads.deep_view()),
{
    let mut r: Vec<Archive> = Vec::new();
    let mut i: usize = 0;
    while i < beads.len()
        invariant
            i <= beads@.len(),
            r.deep_view() == first_of_each_path(beads.deep_view().take(i as int)),
        decreases beads@.len() - i,
    {
        let ghost front = beads.deep_view().take(i as int);
        let mut seen = false;
        let mut j: usize = 0;
        while j < i && !seen
            invariant
                j <= i < beads@.len(),
                front == beads.deep_view().take(i as int),
                seen ==> has_path(front, beads[i as int]@.path),
                !seen ==> forall|k: int| 0 <= k < j ==> (#[trigger] front[k]).path != beads[i as int]@.path,
            decreases i - j + if seen { 0int } else { 1int },
        {
            if same_text(beads[j].path(), beads[i].path()) {
                assert(front[j as int].path == beads[i as int]@.path);
                seen = true;
            } else {
                j += 1;
            }
        }
        proof {
            let next = beads.deep_view().take(i + 1);
            assert(next.drop_last() =~= front);
        }
        if !seen {
            r.push(beads[i].clone());
        }
        i += 1;
    }
    assert(beads.deep_view().take(i as int) =~= beads.deep_view());
    r
}

/// The archive frozen last.
pub fn latest(beads: &Vec<Archive>, now: Instant) -> (r: Option<Archive>)
    ensures
        match latest_of(beads.deep_view(), now) {
            Some(a) => r is Some && r->Some_0@ == a,
            None => r is None,
        },
{
    if beads.len() == 0 {
        return None;
    }
    let mut best: usize = 0;
    let mut best_time: Instant = beads[0].freeze_time(now);
    let mut i: usize = 1;
    assert(beads.deep_view().take(1).drop_last() =~= Seq::<ArchiveView>::empty());
    assert(latest_of(Seq::<ArchiveView>::empty(), now) is None);
    while i < beads.len()
        invariant
            1 <= i <= beads@.len(),
            best < i,
            best_time == frozen_at(beads[best as int]@, now),
            latest_of(beads.deep_view().take(i as int), now) == Some(beads[best as int]@),
        decreases beads@.len() - i,
    {
        proof {
            let next = beads.deep_view().take(i + 1);
            assert(next.drop_last() =~= beads.deep_view().take(i as int));
        }
        let time: Instant = beads[i].freeze_time(now);
        if best_time.at_or_before(&time) {
            best = i;
            best_time = time;
        }
        i += 1;
    }
    assert(beads.deep_view().take(i as int) =~= beads.deep_view());
    Some(beads[best].clone())
}

/// The archive whose file was modified last.
pub fn newest(beads: &Vec<Archive>) -> (r: Option<Archive>)
    ensures
        match newest_of(beads.deep_view()) {
            Some(a) => r is Some && r->Some_0@ == a,
            None => r is None,
        },
{
    let mut best: Option<(usize, Instant)> = None;
    let mut i: usize = 0;
    while i < beads.len()
        invariant
            i <= beads@.len(),
            match best {
                Some((at, modified)) => at < i && beads[at as int]@.facts.modified == Some(modified) && newest_of(
                    beads.deep_view().take(i as int),
                ) == Some(beads[at as int]@),
                None => newest_of(beads.deep_view().take(i as int)) is None,
            },
        decreases beads@.len() - i,
    {
        proof {
            let next = beads.deep_view().take(i + 1);
            assert(next.drop_last() =~= beads.deep_view().take(i as int));
        }
        if let Some(modified) = beads[i].modified() {
            match best {
                None => {
                    best = Some((i, modified));
                },
                Some((_, current)) => {
                    if modified.after(&current) {
                        best = Some((i, modified));
                    }
                },
            }
        }
        i += 1;
    }
    assert(beads.deep_view().take(i as int) =~= beads.deep_view());
    match best {
        Some((at, _)) => Some(beads[at].clone()),
        None => None,
    }
}

/// The bead name that a file name gives, once the pattern for stamped names
/// has been tried on it and found `found`.
pub fn name_after_capture(file: &str, found: Option<Option<String>>) -> (r: Option<String>)
    ensures
        match name_from_capture(
            file@,
            match found {
                None => None,
                Some(None) => Some(None),
                Some(Some(g)) => Some(Some(g@)),
            },
        ) {
            Some(n) => r is Some && r->Some_0@ == n,
            None => r is None,
        },
{
    match found {
        None => None,
        Some(Some(name)) => Some(name),
        Some(None) => {
            let chars = chars_of(file);
            let zip = chars_of(".zip");
            proof {
                reveal_strlit(".zip");
            }
            if ends_with(&chars, &zip) {
                Some(string_of(&chars, 0, chars.len() - 4))
            } else {
                None
            }
        },
    }
}

impl Box {
    /// The box `name` at `location`, given what was found there. It fails with
    /// `BoxNotFound` unless the location is there and is a directory.
    pub fn new(name: String, location: &str, scan: DirScan) -> (r: Result<Box, BeadError>)
        ensures
            r is Ok <==> scan.exists && scan.is_dir,
            r is Err ==> r->Err_0@.kind == ErrorKind::BoxNotFound,
            r is Ok ==> r->Ok_0@ == (BoxView {
                name: name@,
                location: location@,
                exists: true,
                is_dir: true,
                entries: scan.entries.deep_view(),
            }),
    {
        if !scan.exists {
            return Err(BeadError::BoxNotFound(catenate("Box location does not exist: ", location)));
        }
        if !scan.is_dir {
            return Err(BeadError::BoxNotFound(catenate("Box location is not a directory: ", location)));
        }
        Ok(Box { name, location: location.to_owned(), scan })
    }

    /// Replaces the listing by what was found at the location just now.
    pub fn rescan(&mut self, scan: DirScan)
        ensures
            final(self)@ == (BoxView {
                exists: scan.exists,
                is_dir: scan.is_dir,
                entries: scan.entries.deep_view(),
                ..old(self)@
            }),
    {
        self.scan = scan;
    }

    /// Whether the location was there and was a directory when it was last
    /// looked at.
    pub fn is_accessible(&self) -> (b: bool)
        ensures
            b == (self@.exists && self@.is_dir),
    {
        self.scan.exists && self.scan.is_dir
    }

    /// Where the archive of `workspace` frozen at `freeze_time` is to be
    /// stored. The caller writes the archive there.
    pub fn store(&self, workspace: &Workspace, freeze_time: String) -> (r: Result<String, BeadError>)
        ensures
            follows(r, stored(self@, workspace@, freeze_time@)),
    {
        let bead_name = match workspace.name() {
            Some(n) => n,
            None => {
                return Err(BeadError::InvalidWorkspace("Cannot determine workspace name".to_owned()));
            },
        };
        let ghost name = bead_name@;
        let mut file = bead_name;
        file.append("_");
        file.append(freeze_time.as_str());
        file.append(".zip");
        let path = join(self.location.as_str(), file.as_str());
        let mut i: usize = 0;
        while i < self.scan.entries.len()
            invariant
                i <= self.scan.entries@.len(),
                file_name_of(workspace@.directory) == Some(name),
                path@ == joined(self@.location, archive_file_name(name, freeze_time@)),
                forall|k: int| 0 <= k < i ==> (#[trigger] self@.entries[k]).path != path@,
            decreases self.scan.entries@.len() - i,
        {
            if same_text(self.scan.entries[i].path.as_str(), path.as_str()) {
                assert(self@.entries[i as int].path == path@);
                return Err(BeadError::AlreadyExists(catenate("Archive already exists: ", path.as_str())));
            }
            i += 1;
        }
        Ok(path)
    }

    /// Whether `path` names a file that lies in the directory `location` itself.
    pub fn is_in(path: &str, location: &str) -> (b: bool)
        ensures
            b == lies_in(path@, location@),
    {
        match file_name(path) {
            Some(name) => same_text(path, join(location, name.as_str()).as_str()),
            None => false,
        }
    }

    /// What a scan keeps of one entry of the box at `location`, given whether
    /// its path matched the pattern: a file that did not match, that does not
    /// lie in the directory of the box, whose name gives no bead name, or that
    /// is no container, is passed over without a word.
    pub fn keep(entry: &BoxEntry, matched: bool, box_name: &str, location: &str) -> (r: Option<Archive>)
        ensures
            match kept(entry@, matched, box_name@, location@) {
                Some(a) => r is Some && r->Some_0@ == a,
                None => r is None,
            },
    {
        if !matched || !Self::is_in(entry.path.as_str(), location) || entry.facts.container.is_err() {
            return None;
        }
        match Archive::open(entry.path.as_str(), box_name, Some(entry.facts.clone())) {
            Ok(archive) => Some(archive),
            Err(_) => None,
        }
    }

    /// The archives whose path matches `pattern` and which the scan keeps.
    pub fn scan_with(&self, pattern: &str) -> (r: Result<Vec<Archive>, BeadError>)
        ensures
            beads_follow(r, scanned(self@, pattern@)),
    {
        if !pattern_compiles(pattern) {
            return Err(BeadError::IoError(catenate("Pattern syntax error: ", pattern)));
        }
        let mut beads: Vec<Archive> = Vec::new();
        let mut i: usize = 0;
        while i < self.scan.entries.len()
            invariant
                i <= self.scan.entries@.len(),
                glob_valid(pattern@),
                beads.deep_view() == beads_matching(
                    self@.entries.take(i as int),
                    pattern@,
                    self@.name,
                    self@.location,
                ),
            decreases self.scan.entries@.len() - i,
        {
            let entry = &self.scan.entries[i];
            proof {
                let next = self@.entries.take(i + 1);
                assert(next.drop_last() =~= self@.entries.take(i as int));
            }
            let matched = pattern_matches(pattern, entry.path.as_str());
            match Self::keep(entry, matched, self.name.as_str(), self.location.as_str()) {
                Some(archive) => {
                    beads.push(archive);
                },
                None => {},
            }
            i += 1;
        }
        assert(self@.entries.take(i as int) =~= self@.entries);
        Ok(beads)
    }

    /// Every archive of the box.
    pub fn all_beads(&self) -> (r: Result<Vec<Archive>, BeadError>)
        ensures
            beads_follow(r, answer(self@, Query::All)),
    {
        self.scan_with(join(self.location.as_str(), "*.zip").as_str())
    }

    /// The archives of the bead `name`.
    pub fn find_by_name(&self, name: &str) -> (r: Result<Vec<Archive>, BeadError>)
        ensures
            beads_follow(r, answer(self@, Query::Named(name@))),
    {
        self.scan_with(join(self.location.as_str(), catenate(name, "_*.zip").as_str()).as_str())
    }

    /// The first archive of the bead `name` whose content id starts with
    /// `content_id`.
    pub fn find_bead(&self, name: &str, content_id: &str) -> (r: Result<Option<Archive>, BeadError>)
        ensures
            pick_follows(
                r,
                match answer(self@, Query::Named(name@)) {
                    Ok(named) => Ok(first_of(selected(named, Wanted::ContentIdPrefix(content_id@)))),
                    Err(k) => Err(k),
                },
            ),
    {
        let named = self.find_by_name(name)?;
        let mut found = select(&named, &Criterion::ContentIdPrefix(content_id.to_owned()));
        if found.len() > 0 {
            let first = found.swap_remove(0);
            Ok(Some(first))
        } else {
            Ok(None)
        }
    }

    /// The archives of the kind `kind`.
    pub fn find_by_kind(&self, kind: &str) -> (r: Result<Vec<Archive>, BeadError>)
        ensures
            beads_follow(r, answer(self@, Query::OfKind(kind@))),
    {
        let all = self.all_beads()?;
        Ok(select(&all, &Criterion::Kind(kind.to_owned())))
    }

    /// The archives whose content id starts with `prefix`.
    pub fn find_by_content_id_prefix(&self, prefix: &str) -> (r: Result<Vec<Archive>, BeadError>)
        ensures
            beads_follow(r, answer(self@, Query::WithContentId(prefix@))),
    {
        let all = self.all_beads()?;
        Ok(select(&all, &Criterion::ContentIdPrefix(prefix.to_owned())))
    }

    /// The archive of the bead `name` that was frozen last: the order is that
    /// of the freeze times which the archives declare.
    pub fn find_latest_by_name(&self, name: &str, now: Instant) -> (r: Result<Option<Archive>, BeadError>)
        ensures
            pick_follows(
                r,
                match answer(self@, Query::Named(name@)) {
                    Ok(named) => Ok(latest_of(named, now)),
                    Err(k) => Err(k),
                },
            ),
    {
        let named = self.find_by_name(name)?;
        Ok(latest(&named, now))
    }

    /// The archive of the bead `name` whose file was modified last: the order
    /// is that of the files on disk, whatever the archives declare.
    pub fn find_newest_by_name(&self, name: &str) -> (r: Result<Option<Archive>, BeadError>)
        ensures
            pick_follows(
                r,
                match answer(self@, Query::Named(name@)) {
                    Ok(named) => Ok(newest_of(named)),
                    Err(k) => Err(k),
                },
            ),
    {
        let named = self.find_by_name(name)?;
        Ok(newest(&named))
    }

    /// The archives that `reference` names as a bead name, as a kind, or as
    /// the start of a content id, each path once.
    pub fn find_by_ref(&self, reference: &str) -> (r: Result<Vec<Archive>, BeadError>)
        ensures
            beads_follow(r, answer(self@, Query::Ref(reference@))),
    {
        let mut results = self.find_by_name(reference)?;
        let all = self.all_beads()?;
        append_beads(&mut results, select(&all, &Criterion::Kind(reference.to_owned())));
        append_beads(&mut results, select(&all, &Criterion::ContentIdPrefix(reference.to_owned())));
        Ok(distinct_paths(results))
    }

    /// The archives of the bead `name` frozen at `timestamp` or before.
    pub fn find_by_name_before(&self, name: &str, timestamp: &str, now: Instant) -> (r: Result<
        Vec<Archive>,
        BeadError,
    >)
        ensures
            beads_follow(r, in_window(self@, name@, timestamp@, now, false)),
    {
        let cutoff = parse_timestamp(timestamp)?;
        let named = self.find_by_name(name)?;
        Ok(select(&named, &Criterion::FrozenAtOrBefore { cutoff, now }))
    }

    /// The archives of the bead `name` frozen after `timestamp`.
    pub fn find_by_name_after(&self, name: &str, timestamp: &str, now: Instant) -> (r: Result<Vec<Archive>, BeadError>)
        ensures
            beads_follow(r, in_window(self@, name@, timestamp@, now, true)),
    {
        let cutoff = parse_timestamp(timestamp)?;
        let named = self.find_by_name(name)?;
        Ok(select(&named, &Criterion::FrozenAfter { cutoff, now }))
    }

    /// The bead name that the file name of `path` gives: the name in front of
    /// the timestamp where the file name carries one, else the file name
    /// without `.zip`; nothing for a file that is no `.zip`.
    pub fn parse_bead_name_from_path(path: &str) -> (r: Option<String>)
        ensures
            match bead_name_in_path(path@) {
                Some(n) => r is Some && r->Some_0@ == n,
                None => r is None,
            },
    {
        match file_name(path) {
            None => None,
            Some(file) => {
                let found = capture(STAMPED_NAME, file.as_str(), 1);
                name_after_capture(file.as_str(), found)
            },
        }
    }

    /// The answer of the box to a question.
    pub fn ask(&self, q: Ask<'_>) -> (r: Result<Vec<Archive>, BeadError>)
        ensures
            beads_follow(r, answer(self@, q@)),
    {
        match q {
            Ask::All => self.all_beads(),
            Ask::Named(name) => self.find_by_name(name),
            Ask::OfKind(kind) => self.find_by_kind(kind),
            Ask::WithContentId(prefix) => self.find_by_content_id_prefix(prefix),
            Ask::Ref(reference) => self.find_by_ref(reference),
        }
    }
}

/// Several boxes asked as one. The answers stand in the order of the boxes.
#[derive(Debug)]
pub struct UnionBox {
    boxes: Vec<Box>,
}

impl View for UnionBox {
    type V = Seq<BoxView>;

    closed spec fn view(&self) -> Seq<BoxView> {
        self.boxes.deep_view()
    }
}

impl UnionBox {
    /// The union of the boxes given, in their order.
    pub fn new(boxes: Vec<Box>) -> (u: UnionBox)
        ensures
            u@ == boxes.deep_view(),
    {
        UnionBox { boxes }
    }

    /// The answers of all boxes to a question, one after the other. A box that
    /// fails to answer adds nothing.
    pub fn gather(&self, q: Ask<'_>) -> (r: Vec<Archive>)
        ensures
            r.deep_view() == union_answer(self@, q@),
    {
        let mut all: Vec<Archive> = Vec::new();
        let mut i: usize = 0;
        while i < self.boxes.len()
            invariant
                i <= self.boxes@.len(),
                all.deep_view() == union_answer(self@.take(i as int), q@),
            decreases self.boxes@.len() - i,
        {
            proof {
                let next = self@.take(i + 1);
                assert(next.drop_last() =~= self@.take(i as int));
            }
            match self.boxes[i].ask(q) {
                Ok(beads) => {
                    append_beads(&mut all, beads);
                },
                Err(_) => {
                },
            }
            i += 1;
        }
        assert(self@.take(i as int) =~= self@);
        all
    }

    /// Every archive of every box.
    pub fn all_beads(&self) -> (r: Result<Vec<Archive>, BeadError>)
        ensures
            r is Ok,
            r->Ok_0.deep_view() == union_answer(self@, Query::All),
    {
        Ok(self.gather(Ask::All))
    }

    /// The archives of the bead `name` in every box.
    pub fn find_by_name(&self, name: &str) -> (r: Result<Vec<Archive>, BeadError>)
        ensures
            r is Ok,
            r->Ok_0.deep_view() == union_answer(self@, Query::Named(name@)),
    {
        Ok(self.gather(Ask::Named(name)))
    }

    /// The archive of the bead `name` that was frozen last, over all boxes.
    pub fn find_latest(&self, name: &str, now: Instant) -> (r: Result<Option<Archive>, BeadError>)
        ensures
            pick_follows(r, Ok(latest_of(union_answer(self@, Query::Named(name@)), now))),
    {
        let named = self.gather(Ask::Named(name));
        Ok(latest(&named, now))
    }

    /// The archives of the kind `kind` in every box.
    pub fn find_by_kind(&self, kind: &str) -> (r: Result<Vec<Archive>, BeadError>)
        ensures
            r is Ok,
            r->Ok_0.deep_view() == union_answer(self@, Query::OfKind(kind@)),
    {
        Ok(self.gather(Ask::OfKind(kind)))
    }

    /// The archives whose content id starts with `prefix`, in every box.
    pub fn find_by_content_id_prefix(&self, prefix: &str) -> (r: Result<Vec<Archive>, BeadError>)
        ensures
            r is Ok,
            r->Ok_0.deep_view() == union_answer(self@, Query::WithContentId(prefix@)),
    {
        Ok(self.gather(Ask::WithContentId(prefix)))
    }

    /// The archives that `reference` names in any box, each path once.
    pub fn find_by_ref(&self, reference: &str) -> (r: Result<Vec<Archive>, BeadError>)
        ensures
            r is Ok,
            r->Ok_0.deep_view() == first_of_each_path(union_answer(self@, Query::Ref(reference@))),
    {
        Ok(distinct_paths(self.gather(Ask::Ref(reference))))
    }
}

impl Clone for DirScan {
    fn clone(&self) -> (c: Self)
        ensures
            c.exists == self.exists,
            c.is_dir == self.is_dir,
            c.entries.deep_view() == self.entries.deep_view(),
    {
        let mut entries: Vec<BoxEntry> = Vec::new();
        let mut i: usize = 0;
        while i < self.entries.len()
            invariant
                i <= self.entries@.len(),
                entries@.len() == i,
                forall|j: int| 0 <= j < i ==> (#[trigger] entries@[j])@ == self.entries@[j]@,
            decreases self.entries@.len() - i,
        {
            entries.push(self.entries[i].clone());
            i += 1;
        }
        assert(entries.deep_view() =~= self.entries.deep_view());
        DirScan { exists: self.exists, is_dir: self.is_dir, entries }
    }
}

impl Clone for Box {
    fn clone(&self) -> (c: Self)
        ensures
            c@ == self@,
    {
        Box { name: self.name.clone(), location: self.location.clone(), scan: self.scan.clone() }
    }
}

} // verus!
