//! Collecting dependency facts and warnings over the entries of a scan.
//!
//! The caller walks the directory tree and reads the files. For every entry
//! it asks `walk_action` what to do, and reports what it found at each
//! emitted path as an `Event`. The collection decides what becomes a fact,
//! what becomes a warning and what is passed over. No entry ends the scan.

use vstd::prelude::*;
use crate::arch::{Architecture, is_machine, spec_is_machine};
use crate::classify::{classify, spec_classify, spec_header_architecture, spec_header_readable};
use crate::extract::{extract, spec_extract};
use crate::names::{copy_name, spec_names};
use crate::report::{DependencyFact, FactView, spec_facts};

verus! {

/// What the walker learned of a directory entry before reading it.
#[derive(Clone, Copy, Debug, PartialEq, Eq, Structural)]
pub enum EntryStatus {
    /// The entry could not be examined.
    Unreadable,
    /// The entry is a directory.
    Directory,
    /// The entry is anything else.
    File,
}

/// What the walker does with a directory entry.
#[derive(Clone, Copy, Debug, PartialEq, Eq, Structural)]
pub enum WalkAction {
    /// Pass over the entry and record a warning.
    Warn,
    /// List the entry's own entries in its place.
    Descend,
    /// Hand the entry's path to the collector.
    Emit,
}

/// The walker's rule: unreadable entries are passed over with a warning,
/// directories are entered in a recursive walk, everything else is emitted.
pub open spec fn spec_walk_action(status: EntryStatus, recursive: bool) -> WalkAction {
    match status {
        EntryStatus::Unreadable => WalkAction::Warn,
        EntryStatus::Directory => if recursive {
            WalkAction::Descend
        } else {
            WalkAction::Emit
        },
        EntryStatus::File => WalkAction::Emit,
    }
}

/// Decides what the walker does with a directory entry.
pub fn walk_action(status: EntryStatus, recursive: bool) -> (a: WalkAction)
    ensures
        a == spec_walk_action(status, recursive),
{
    match status {
        EntryStatus::Unreadable => WalkAction::Warn,
        EntryStatus::Directory => if recursive {
            WalkAction::Descend
        } else {
            WalkAction::Emit
        },
        EntryStatus::File => WalkAction::Emit,
    }
}

/// Why an entry was passed over with a warning.
#[derive(Clone, Copy, Debug, PartialEq, Eq, Structural)]
pub enum WarningKind {
    /// The entry could not be examined or read.
    EntryUnreadable,
    /// The file is an ELF file whose dynamic section could not be read.
    MalformedDynamicSection,
}

/// The words that describe a kind of warning.
pub open spec fn spec_message(kind: WarningKind) -> Seq<char> {
    match kind {
        WarningKind::EntryUnreadable => "entry cannot be read"@,
        WarningKind::MalformedDynamicSection => "malformed dynamic section"@,
    }
}

/// Describes a kind of warning in words.
pub fn message(kind: WarningKind) -> (r: String)
    ensures
        r@ == spec_message(kind),
{
    match kind {
        WarningKind::EntryUnreadable => "entry cannot be read".to_owned(),
        WarningKind::MalformedDynamicSection => "malformed dynamic section".to_owned(),
    }
}

/// A path that was passed over, and why.
#[derive(Clone, Debug, PartialEq, Eq)]
pub struct Warning {
    pub path: String,
    pub kind: WarningKind,
}

/// A warning as plain values.
pub struct WarningView {
    pub path: Seq<char>,
    pub kind: WarningKind,
}

impl View for Warning {
    type V = WarningView;

    open spec fn view(&self) -> WarningView {
        WarningView { path: self.path@, kind: self.kind }
    }
}

/// The warnings that a vector holds.
pub open spec fn spec_warnings(v: Seq<Warning>) -> Seq<WarningView> {
    Seq::new(v.len(), |i: int| v[i]@)
}

/// What the inspection of one file gave.
pub enum Inspection {
    /// The file cannot be analysed and is passed over in silence.
    Skipped,
    /// The file is malformed and is passed over with a warning.
    Malformed,
    /// The libraries that the file asks for, in the order of its dynamic
    /// table.
    Needed(Vec<Vec<u8>>),
}

/// An inspection as plain values.
pub enum InspectionView {
    Skipped,
    Malformed,
    Needed(Seq<Seq<u8>>),
}

impl View for Inspection {
    type V = InspectionView;

    open spec fn view(&self) -> InspectionView {
        match self {
            Inspection::Skipped => InspectionView::Skipped,
            Inspection::Malformed => InspectionView::Malformed,
            Inspection::Needed(names) => InspectionView::Needed(spec_names(names@)),
        }
    }
}

/// What the inspection of a buffer of the given architecture gives: nothing
/// for an architecture that names no machine, else what extraction gives.
pub open spec fn spec_inspect(b: Seq<u8>, arch: Architecture) -> InspectionView {
    if !spec_is_machine(arch) {
        InspectionView::Skipped
    } else {
        match spec_extract(b) {
            None => InspectionView::Malformed,
            Some(names) => InspectionView::Needed(names),
        }
    }
}

/// Inspects the bytes of a file that was classified as `arch`.
pub fn inspect(bytes: &[u8], arch: Architecture) -> (r: Inspection)
    ensures
        r@ == spec_inspect(bytes@, arch),
{
    if !is_machine(arch) {
        return Inspection::Skipped;
    }
    match extract(bytes, arch) {
        Ok(names) => Inspection::Needed(names),
        Err(_) => Inspection::Malformed,
    }
}

/// One fact for each name, all with the same path and architecture.
pub open spec fn spec_facts_for(path: Seq<char>, names: Seq<Seq<u8>>, arch: Architecture) -> Seq<
    FactView,
> {
    Seq::new(
        names.len(),
        |i: int| FactView { file_path: path, library_name: names[i], architecture: arch },
    )
}

/// The facts and warnings of a collection as plain values.
pub struct CollectionView {
    pub facts: Seq<FactView>,
    pub warnings: Seq<WarningView>,
}

/// The collection after the inspection of the file at `path`, classified as
/// `arch`, has been recorded.
pub open spec fn spec_record(
    c: CollectionView,
    path: Seq<char>,
    arch: Architecture,
    inspection: InspectionView,
) -> CollectionView {
    match inspection {
        InspectionView::Skipped => c,
        InspectionView::Malformed => CollectionView {
            facts: c.facts,
            warnings: c.warnings.push(
                WarningView { path, kind: WarningKind::MalformedDynamicSection },
            ),
        },
        InspectionView::Needed(names) => if spec_is_machine(arch) {
            CollectionView {
                facts: c.facts + spec_facts_for(path, names, arch),
                warnings: c.warnings,
            }
        } else {
            c
        },
    }
}

/// The collection after the path has been passed over as unreadable.
pub open spec fn spec_warn_unreadable(c: CollectionView, path: Seq<char>) -> CollectionView {
    CollectionView {
        facts: c.facts,
        warnings: c.warnings.push(WarningView { path, kind: WarningKind::EntryUnreadable }),
    }
}

/// What the caller found at an emitted path.
pub enum Event {
    /// The path could not be examined or read.
    Unreadable,
    /// The path is a directory.
    Directory,
    /// The path is a file with these bytes.
    Contents(Vec<u8>),
}

/// An event as plain values.
pub enum EventView {
    Unreadable,
    Directory,
    Contents(Seq<u8>),
}

impl View for Event {
    type V = EventView;

    open spec fn view(&self) -> EventView {
        match self {
            Event::Unreadable => EventView::Unreadable,
            Event::Directory => EventView::Directory,
            Event::Contents(bytes) => EventView::Contents(bytes@),
        }
    }
}

/// The facts and warnings gathered so far.
pub struct Collection {
    facts: Vec<DependencyFact>,
    warnings: Vec<Warning>,
}

impl View for Collection {
    type V = CollectionView;

    closed spec fn view(&self) -> CollectionView {
        CollectionView { facts: spec_facts(self.facts@), warnings: spec_warnings(self.warnings@) }
    }
}

/// Every fact names a machine.
pub open spec fn spec_all_machines(facts: Seq<FactView>) -> bool {
    forall|i: int| 0 <= i < facts.len() ==> spec_is_machine((#[trigger] facts[i]).architecture)
}

impl Collection {
    /// Every fact of the collection names a machine: no fact stands for an
    /// entry that could not be analysed.
    pub open spec fn wf(&self) -> bool {
        spec_all_machines(self@.facts)
    }

    /// An empty collection.
    pub fn new() -> (c: Collection)
        ensures
            c.wf(),
            c@.facts.len() == 0,
            c@.warnings.len() == 0,
    {
        Collection { facts: Vec::new(), warnings: Vec::new() }
    }

    /// The facts gathered so far.
    pub fn facts(&self) -> (r: &Vec<DependencyFact>)
        ensures
            spec_facts(r@) == self@.facts,
    {
        &self.facts
    }

    /// The warnings gathered so far.
    pub fn warnings(&self) -> (r: &Vec<Warning>)
        ensures
            spec_warnings(r@) == self@.warnings,
    {
        &self.warnings
    }

    /// Records that the path was passed over as unreadable: one warning
    /// more, the facts as they were.
    pub fn warn_unreadable(&mut self, path: &String)
        requires
            old(self).wf(),
        ensures
            final(self).wf(),
            final(self)@ == spec_warn_unreadable(old(self)@, path@),
    {
        let ghost before = spec_warnings(self.warnings@);
        self.warnings.push(Warning { path: path.clone(), kind: WarningKind::EntryUnreadable });
        assert(spec_warnings(self.warnings@) =~= before.push(
            WarningView { path: path@, kind: WarningKind::EntryUnreadable },
        ));
    }

    /// Records the inspection of the file at `path`, classified as `arch`.
    ///
    /// Names become facts, one for each in their order, where `arch` names a
    /// machine. A malformed file becomes a warning. Anything else leaves the
    /// collection as it was.
    pub fn record(&mut self, path: &String, arch: Architecture, inspection: &Inspection)
        requires
            old(self).wf(),
        ensures
            final(self).wf(),
            final(self)@ == spec_record(old(self)@, path@, arch, inspection@),
    {
        match inspection {
            Inspection::Skipped => {},
            Inspection::Malformed => {
                let ghost before = spec_warnings(self.warnings@);
                self.warnings.push(
                    Warning { path: path.clone(), kind: WarningKind::MalformedDynamicSection },
                );
                assert(spec_warnings(self.warnings@) =~= before.push(
                    WarningView { path: path@, kind: WarningKind::MalformedDynamicSection },
                ));
            },
            Inspection::Needed(names) => {
                if is_machine(arch) {
                    let ghost before = spec_facts(self.facts@);
                    let ghost wanted = spec_facts_for(path@, spec_names(names@), arch);
                    let mut i: usize = 0;
                    assert(before + wanted.take(0) =~= before);
                    while i < names.len()
                        invariant
                            i <= names.len(),
                            spec_is_machine(arch),
                            wanted == spec_facts_for(path@, spec_names(names@), arch),
                            spec_facts(self.facts@) == before + wanted.take(i as int),
                            spec_warnings(self.warnings@) == spec_warnings(old(self).warnings@),
                            spec_all_machines(before),
                        decreases names.len() - i,
                    {
                        let ghost so_far = spec_facts(self.facts@);
                        self.facts.push(
                            DependencyFact {
                                file_path: path.clone(),
                                library_name: copy_name(&names[i]),
                                architecture: arch,
                            },
                        );
                        i += 1;
                        proof {
                            let last = wanted[i - 1];
                            assert(last.library_name == spec_names(names@)[i - 1]);
                            assert(spec_facts(self.facts@) =~= so_far.push(last));
                            assert(wanted.take(i as int) =~= wanted.take(i - 1).push(last));
                            assert(so_far.push(last) =~= before + wanted.take(i as int));
                        }
                    }
                    assert(wanted.take(names.len() as int) =~= wanted);
                }
            },
        }
    }

    /// Classifies and inspects the bytes of the file at `path` and records
    /// the outcome.
    ///
    /// A buffer without a readable header leaves the collection as it was.
    /// A file with a readable header gives one fact for each library that it
    /// asks for, in the order of its dynamic table, under its path and the
    /// architecture of its header; or one warning, where it is malformed.
    pub fn scan_file(&mut self, path: &String, bytes: &[u8])
        requires
            old(self).wf(),
        ensures
            final(self).wf(),
            final(self)@ == spec_scanned(old(self)@, path@, bytes@),
    {
        let arch = classify(bytes);
        let inspection = inspect(bytes, arch);
        self.record(path, arch, &inspection);
    }

    /// Records what the caller found at an emitted path.
    ///
    /// An unreadable path gives one warning and leaves the facts as they
    /// were. A directory leaves the collection as it was. The contents of a
    /// file are scanned.
    pub fn observe(&mut self, path: &String, event: &Event)
        requires
            old(self).wf(),
        ensures
            final(self).wf(),
            final(self)@ == spec_observed(old(self)@, path@, event@),
    {
        match event {
            Event::Unreadable => {
                self.warn_unreadable(path);
            },
            Event::Directory => {},
            Event::Contents(bytes) => {
                self.scan_file(path, bytes.as_slice());
            },
        }
    }
}

/// The collection after the bytes of the file at `path` have been scanned:
/// what recording the inspection of the bytes under their classification
/// gives.
pub open spec fn spec_scanned(c: CollectionView, path: Seq<char>, b: Seq<u8>) -> CollectionView {
    spec_record(c, path, spec_classify(b), spec_inspect(b, spec_classify(b)))
}

/// The collection after what was found at `path` has been recorded.
pub open spec fn spec_observed(c: CollectionView, path: Seq<char>, event: EventView) -> CollectionView {
    match event {
        EventView::Unreadable => spec_warn_unreadable(c, path),
        EventView::Directory => c,
        EventView::Contents(b) => spec_scanned(c, path, b),
    }
}

/// What scanning a file comes to. Without a readable header the collection
/// stays as it was. With one, a file that asks for some libraries adds one
/// fact for each behind the facts there were, in the order of its dynamic
/// table, under the architecture of its header, and no warning; a malformed
/// file adds one warning and no fact.
pub proof fn lemma_scanned(c: CollectionView, path: Seq<char>, b: Seq<u8>)
    ensures
        !spec_header_readable(b) ==> spec_scanned(c, path, b) == c,
        spec_header_readable(b) ==> match spec_extract(b) {
            Some(names) => spec_scanned(c, path, b) == (CollectionView {
                facts: c.facts + spec_facts_for(path, names, spec_header_architecture(b)),
                warnings: c.warnings,
            }),
            None => spec_scanned(c, path, b) == (CollectionView {
                facts: c.facts,
                warnings: c.warnings.push(
                    WarningView { path, kind: WarningKind::MalformedDynamicSection },
                ),
            }),
        },
{
}

/// An unreadable entry between two files does not touch the facts: those of
/// the file before it stay, and those of the file after it are added as if
/// the entry had not been there.
pub proof fn lemma_unreadable_spares_siblings(
    c: CollectionView,
    bad: Seq<char>,
    path: Seq<char>,
    b: Seq<u8>,
)
    ensures
        spec_warn_unreadable(c, bad).facts == c.facts,
        spec_warn_unreadable(c, bad).warnings.len() == c.warnings.len() + 1,
        spec_scanned(spec_warn_unreadable(c, bad), path, b).facts == spec_scanned(
            c,
            path,
            b,
        ).facts,
{
}

} // verus!
