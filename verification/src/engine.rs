//! The copy engine: mirroring one directory tree into another, step by step.
//!
//! The engine touches no file. It names the next thing to do (list a
//! directory, make sure a directory exists, copy a file), the caller does it
//! and reports how it went, and the engine names the next thing. A tree is
//! walked depth first, in the order in which each directory was listed:
//!
//! 1. the source directory is listed; if that fails, nothing has been
//!    written and the run ends in `SourceUnreadable`;
//! 2. the destination directory is made sure to exist;
//! 3. every regular file is copied over its namesake in the destination;
//! 4. for every subdirectory its namesake in the destination is made sure to
//!    exist, then the subdirectory is listed and walked in the same way;
//! 5. entries that are neither (links, devices, sockets) are skipped.
//!
//! The first failure ends the run: a failed listing in `SourceUnreadable`, a
//! failed write in `DestinationWriteFailed`, each with the path concerned.

use crate::error::{BackupError, ErrorView};
use crate::path::{join, joined};
use vstd::prelude::*;

verus! {

/// What kind of thing a directory entry is.
#[derive(Clone, Copy, Debug, PartialEq, Eq, Structural)]
pub enum EntryKind {
    /// A regular file.
    File,
    /// A directory.
    Directory,
    /// Anything else; such entries are skipped.
    Other,
}

/// One entry of a directory listing.
#[derive(Debug, PartialEq, Eq)]
pub struct Entry {
    pub name: String,
    pub kind: EntryKind,
}

/// The mathematical value of an [`Entry`].
pub struct EntryView {
    pub name: Seq<char>,
    pub kind: EntryKind,
}

impl View for Entry {
    type V = EntryView;

    open spec fn view(&self) -> EntryView {
        EntryView { name: self.name@, kind: self.kind }
    }
}

impl Clone for Entry {
    fn clone(&self) -> (out: Entry)
        ensures
            out@ == self@,
    {
        Entry { name: self.name.clone(), kind: self.kind }
    }
}

/// The values of the entries of a listing, in order.
pub open spec fn entry_views(entries: Seq<Entry>) -> Seq<EntryView> {
    entries.map_values(|entry: Entry| entry@)
}

/// What the caller is to do next.
#[derive(Debug, PartialEq, Eq)]
pub enum Action {
    /// List the immediate entries of the directory at `path`.
    List { path: String },
    /// Make sure that a directory exists at `path` and can be resolved,
    /// creating it and its parents where they are missing.
    Ensure { path: String },
    /// Copy the bytes of the file at `from` to `to`, replacing what is there.
    Copy { from: String, to: String },
    /// Tell the operator that the pair has been backed up.
    Report { source: String, destination: String },
    /// Nothing is left to do.
    Finish,
    /// The run has failed; nothing further is to be done.
    Abort(BackupError),
}

/// The mathematical value of an [`Action`].
pub enum ActionView {
    List { path: Seq<char> },
    Ensure { path: Seq<char> },
    Copy { from: Seq<char>, to: Seq<char> },
    Report { source: Seq<char>, destination: Seq<char> },
    Finish,
    Abort(ErrorView),
}

impl View for Action {
    type V = ActionView;

    open spec fn view(&self) -> ActionView {
        match self {
            Action::List { path } => ActionView::List { path: path@ },
            Action::Ensure { path } => ActionView::Ensure { path: path@ },
            Action::Copy { from, to } => ActionView::Copy { from: from@, to: to@ },
            Action::Report { source, destination } => ActionView::Report {
                source: source@,
                destination: destination@,
            },
            Action::Finish => ActionView::Finish,
            Action::Abort(error) => ActionView::Abort(error@),
        }
    }
}

impl Clone for Action {
    fn clone(&self) -> (out: Action)
        ensures
            out@ == self@,
    {
        match self {
            Action::List { path } => Action::List { path: path.clone() },
            Action::Ensure { path } => Action::Ensure { path: path.clone() },
            Action::Copy { from, to } => Action::Copy { from: from.clone(), to: to.clone() },
            Action::Report { source, destination } => Action::Report {
                source: source.clone(),
                destination: destination.clone(),
            },
            Action::Finish => Action::Finish,
            Action::Abort(error) => Action::Abort(error.clone()),
        }
    }
}

/// How the last action went.
#[derive(Debug, PartialEq, Eq)]
pub enum Event {
    /// The directory was listed; these are its entries.
    Listed(Vec<Entry>),
    /// The action was carried out.
    Completed,
    /// The action could not be carried out.
    Failed,
}

/// The mathematical value of an [`Event`].
pub enum EventView {
    Listed(Seq<EntryView>),
    Completed,
    Failed,
}

impl View for Event {
    type V = EventView;

    open spec fn view(&self) -> EventView {
        match self {
            Event::Listed(entries) => EventView::Listed(entry_views(entries@)),
            Event::Completed => EventView::Completed,
            Event::Failed => EventView::Failed,
        }
    }
}

/// A directory that is being walked: its path, the path of its mirror, its
/// listing, and how many of its entries have been dealt with.
struct Frame {
    source: String,
    destination: String,
    entries: Vec<Entry>,
    next: usize,
}

/// The mathematical value of a directory that is being walked.
pub struct FrameView {
    pub source: Seq<char>,
    pub destination: Seq<char>,
    pub entries: Seq<EntryView>,
    pub next: nat,
}

impl View for Frame {
    type V = FrameView;

    closed spec fn view(&self) -> FrameView {
        FrameView {
            source: self.source@,
            destination: self.destination@,
            entries: entry_views(self.entries@),
            next: self.next as nat,
        }
    }
}

spec fn frame_views(frames: Seq<Frame>) -> Seq<FrameView> {
    frames.map_values(|frame: Frame| frame@)
}

/// What the engine is waiting to hear about.
enum Phase {
    ListingRoot,
    EnsuringRoot { entries: Vec<Entry> },
    EnsuringDir { source: String, destination: String },
    ListingDir { source: String, destination: String },
    Copying { to: String },
    Finished,
    Aborted(BackupError),
}

/// What the engine is waiting to hear about, as a mathematical value.
pub enum PhaseView {
    /// The listing of the source directory of the run.
    ListingRoot,
    /// The making of the destination directory of the run; `entries` is the
    /// listing of the source.
    EnsuringRoot { entries: Seq<EntryView> },
    /// The making of `destination`, the mirror of the subdirectory `source`.
    EnsuringDir { source: Seq<char>, destination: Seq<char> },
    /// The listing of the subdirectory `source`, whose mirror `destination`
    /// exists.
    ListingDir { source: Seq<char>, destination: Seq<char> },
    /// The copying of a file to `to`.
    Copying { to: Seq<char> },
    /// Nothing: the run is complete.
    Finished,
    /// Nothing: the run has failed.
    Aborted(ErrorView),
}

impl View for Phase {
    type V = PhaseView;

    closed spec fn view(&self) -> PhaseView {
        match self {
            Phase::ListingRoot => PhaseView::ListingRoot,
            Phase::EnsuringRoot { entries } => PhaseView::EnsuringRoot {
                entries: entry_views(entries@),
            },
            Phase::EnsuringDir { source, destination } => PhaseView::EnsuringDir {
                source: source@,
                destination: destination@,
            },
            Phase::ListingDir { source, destination } => PhaseView::ListingDir {
                source: source@,
                destination: destination@,
            },
            Phase::Copying { to } => PhaseView::Copying { to: to@ },
            Phase::Finished => PhaseView::Finished,
            Phase::Aborted(error) => PhaseView::Aborted(error@),
        }
    }
}

/// The state of one run of the copy engine.
pub struct Copier {
    source: String,
    destination: String,
    phase: Phase,
    stack: Vec<Frame>,
}

/// The mathematical value of a [`Copier`]: the two roots of the run, what it
/// waits for, and the directories being walked, outermost first.
pub struct CopierView {
    pub source: Seq<char>,
    pub destination: Seq<char>,
    pub phase: PhaseView,
    pub stack: Seq<FrameView>,
}

impl View for Copier {
    type V = CopierView;

    closed spec fn view(&self) -> CopierView {
        CopierView {
            source: self.source@,
            destination: self.destination@,
            phase: self.phase@,
            stack: frame_views(self.stack@),
        }
    }
}

/// The entries of the innermost directory that are still to be dealt with.
pub open spec fn top_remaining(stack: Seq<FrameView>) -> int {
    if stack.len() == 0 {
        0
    } else {
        stack.last().entries.len() - stack.last().next
    }
}

/// Moves on to the next entry that asks for an action: directories that
/// have been walked to their end are left, entries that are neither file
/// nor directory are passed over. Gives the directories still being walked,
/// what is waited for, and the action.
pub open spec fn advance(stack: Seq<FrameView>) -> (Seq<FrameView>, PhaseView, ActionView)
    decreases stack.len(), top_remaining(stack),
{
    if stack.len() == 0 {
        (stack, PhaseView::Finished, ActionView::Finish)
    } else {
        let top = stack.last();
        if top.next >= top.entries.len() {
            advance(stack.drop_last())
        } else {
            let entry = top.entries[top.next as int];
            let rest = stack.drop_last().push(
                FrameView {
                    source: top.source,
                    destination: top.destination,
                    entries: top.entries,
                    next: top.next + 1,
                },
            );
            let from = joined(top.source, entry.name);
            let to = joined(top.destination, entry.name);
            match entry.kind {
                EntryKind::File => (rest, PhaseView::Copying { to }, ActionView::Copy { from, to }),
                EntryKind::Directory => (
                    rest,
                    PhaseView::EnsuringDir { source: from, destination: to },
                    ActionView::Ensure { path: to },
                ),
                EntryKind::Other => advance(rest),
            }
        }
    }
}

/// The state and the first action of a run that mirrors `source` into
/// `destination`: the source is listed before anything is written.
pub open spec fn start_spec(source: Seq<char>, destination: Seq<char>) -> (CopierView, ActionView) {
    (
        CopierView { source, destination, phase: PhaseView::ListingRoot, stack: Seq::empty() },
        ActionView::List { path: source },
    )
}

/// The state with what is waited for replaced.
pub open spec fn with_phase(state: CopierView, phase: PhaseView) -> CopierView {
    CopierView {
        source: state.source,
        destination: state.destination,
        phase,
        stack: state.stack,
    }
}

/// The run ends in `error`.
pub open spec fn abort_spec(state: CopierView, error: ErrorView) -> (CopierView, ActionView) {
    (with_phase(state, PhaseView::Aborted(error)), ActionView::Abort(error))
}

/// The run goes on from the directories in `stack`.
pub open spec fn resume_spec(state: CopierView, stack: Seq<FrameView>) -> (CopierView, ActionView) {
    let (rest, phase, action) = advance(stack);
    (
        CopierView {
            source: state.source,
            destination: state.destination,
            phase,
            stack: rest,
        },
        action,
    )
}

/// The next state and action, given how the last action went. An event that
/// is not the success of the action waited for counts as its failure; a run
/// that has ended stays ended.
pub open spec fn step_spec(state: CopierView, event: EventView) -> (CopierView, ActionView) {
    match state.phase {
        PhaseView::ListingRoot => match event {
            EventView::Listed(entries) => (
                with_phase(state, PhaseView::EnsuringRoot { entries }),
                ActionView::Ensure { path: state.destination },
            ),
            _ => abort_spec(state, ErrorView::SourceUnreadable { path: state.source }),
        },
        PhaseView::EnsuringRoot { entries } => match event {
            EventView::Completed => resume_spec(
                state,
                seq![
                    FrameView {
                        source: state.source,
                        destination: state.destination,
                        entries,
                        next: 0,
                    },
                ],
            ),
            _ => abort_spec(state, ErrorView::DestinationWriteFailed { path: state.destination }),
        },
        PhaseView::EnsuringDir { source, destination } => match event {
            EventView::Completed => (
                with_phase(state, PhaseView::ListingDir { source, destination }),
                ActionView::List { path: source },
            ),
            _ => abort_spec(state, ErrorView::DestinationWriteFailed { path: destination }),
        },
        PhaseView::ListingDir { source, destination } => match event {
            EventView::Listed(entries) => resume_spec(
                state,
                state.stack.push(FrameView { source, destination, entries, next: 0 }),
            ),
            _ => abort_spec(state, ErrorView::SourceUnreadable { path: source }),
        },
        PhaseView::Copying { to } => match event {
            EventView::Completed => resume_spec(state, state.stack),
            _ => abort_spec(state, ErrorView::DestinationWriteFailed { path: to }),
        },
        PhaseView::Finished => (state, ActionView::Finish),
        PhaseView::Aborted(error) => (state, ActionView::Abort(error)),
    }
}

fn advance_frames(frames: Vec<Frame>) -> (out: (Vec<Frame>, Phase, Action))
    ensures
        (frame_views(out.0@), out.1@, out.2@) == advance(frame_views(frames@)),
{
    let mut stack = frames;
    loop
        invariant
            advance(frame_views(stack@)) == advance(frame_views(frames@)),
        decreases stack@.len(), top_remaining(frame_views(stack@)),
    {
        let ghost before = frame_views(stack@);
        match stack.pop() {
            None => {
                assert(frame_views(stack@) =~= before);
                return (stack, Phase::Finished, Action::Finish);
            },
            Some(frame) => {
                assert(frame_views(stack@) =~= before.drop_last());
                assert(frame@ == before.last());
                if frame.next < frame.entries.len() {
                    let Frame { source, destination, entries, next } = frame;
                    let kind = entries[next].kind;
                    let from = join(source.as_str(), entries[next].name.as_str());
                    let to = join(destination.as_str(), entries[next].name.as_str());
                    assert(entry_views(entries@)[next as int] == entries@[next as int]@);
                    stack.push(Frame { source, destination, entries, next: next + 1 });
                    assert(frame_views(stack@) =~= before.drop_last().push(
                        FrameView {
                            source: before.last().source,
                            destination: before.last().destination,
                            entries: before.last().entries,
                            next: before.last().next + 1,
                        },
                    ));
                    match kind {
                        EntryKind::File => {
                            let target = to.clone();
                            let phase = Phase::Copying { to: target };
                            return (stack, phase, Action::Copy { from, to });
                        },
                        EntryKind::Directory => {
                            let path = to.clone();
                            return (
                                stack,
                                Phase::EnsuringDir { source: from, destination: to },
                                Action::Ensure { path },
                            );
                        },
                        EntryKind::Other => {},
                    }
                }
            },
        }
    }
}

impl Copier {
    /// Begins a run that mirrors the tree under `source` into `destination`.
    /// The first action lists the source; nothing is written before that
    /// listing has succeeded.
    pub fn start(source: &str, destination: &str) -> (out: (Copier, Action))
        ensures
            (out.0@, out.1@) == start_spec(source@, destination@),
    {
        let state = Copier {
            source: source.to_owned(),
            destination: destination.to_owned(),
            phase: Phase::ListingRoot,
            stack: Vec::new(),
        };
        assert(frame_views(state.stack@) =~= Seq::empty());
        (state, Action::List { path: source.to_owned() })
    }

    /// Takes in how the last action went and names the next one.
    pub fn step(self, event: Event) -> (out: (Copier, Action))
        ensures
            (out.0@, out.1@) == step_spec(self@, event@),
    {
        let Copier { source, destination, phase, stack } = self;
        match phase {
            Phase::ListingRoot => match event {
                Event::Listed(entries) => {
                    let path = destination.clone();
                    let phase = Phase::EnsuringRoot { entries };
                    (Copier { source, destination, phase, stack }, Action::Ensure { path })
                },
                _ => {
                    let error = BackupError::SourceUnreadable { path: source.clone() };
                    Copier::abort(source, destination, stack, error)
                },
            },
            Phase::EnsuringRoot { entries } => match event {
                Event::Completed => {
                    let mut frames: Vec<Frame> = Vec::new();
                    frames.push(
                        Frame {
                            source: source.clone(),
                            destination: destination.clone(),
                            entries,
                            next: 0,
                        },
                    );
                    assert(frame_views(frames@) =~= seq![
                        FrameView {
                            source: source@,
                            destination: destination@,
                            entries: entry_views(entries@),
                            next: 0,
                        },
                    ]);
                    Copier::resume(source, destination, frames)
                },
                _ => {
                    let error = BackupError::DestinationWriteFailed { path: destination.clone() };
                    Copier::abort(source, destination, stack, error)
                },
            },
            Phase::EnsuringDir { source: from, destination: to } => match event {
                Event::Completed => {
                    let path = from.clone();
                    (
                        Copier {
                            source,
                            destination,
                            phase: Phase::ListingDir { source: from, destination: to },
                            stack,
                        },
                        Action::List { path },
                    )
                },
                _ => {
                    let error = BackupError::DestinationWriteFailed { path: to };
                    Copier::abort(source, destination, stack, error)
                },
            },
            Phase::ListingDir { source: from, destination: to } => match event {
                Event::Listed(entries) => {
                    let mut frames = stack;
                    let ghost before = frame_views(frames@);
                    frames.push(Frame { source: from, destination: to, entries, next: 0 });
                    assert(frame_views(frames@) =~= before.push(
                        FrameView {
                            source: from@,
                            destination: to@,
                            entries: entry_views(entries@),
                            next: 0,
                        },
                    ));
                    Copier::resume(source, destination, frames)
                },
                _ => {
                    let error = BackupError::SourceUnreadable { path: from };
                    Copier::abort(source, destination, stack, error)
                },
            },
            Phase::Copying { to } => match event {
                Event::Completed => Copier::resume(source, destination, stack),
                _ => {
                    let error = BackupError::DestinationWriteFailed { path: to };
                    Copier::abort(source, destination, stack, error)
                },
            },
            Phase::Finished => (
                Copier { source, destination, phase: Phase::Finished, stack },
                Action::Finish,
            ),
            Phase::Aborted(error) => {
                let again = error.clone();
                let phase = Phase::Aborted(error);
                (Copier { source, destination, phase, stack }, Action::Abort(again))
            },
        }
    }

    fn abort(source: String, destination: String, stack: Vec<Frame>, error: BackupError) -> (out: (
        Copier,
        Action,
    ))
        ensures
            out.0@ == (CopierView {
                source: source@,
                destination: destination@,
                phase: PhaseView::Aborted(error@),
                stack: frame_views(stack@),
            }),
            out.1@ == ActionView::Abort(error@),
    {
        let again = error.clone();
        (Copier { source, destination, phase: Phase::Aborted(error), stack }, Action::Abort(again))
    }

    fn resume(source: String, destination: String, stack: Vec<Frame>) -> (out: (Copier, Action))
        ensures
            out.0@ == (CopierView {
                source: source@,
                destination: destination@,
                phase: advance(frame_views(stack@)).1,
                stack: advance(frame_views(stack@)).0,
            }),
            out.1@ == advance(frame_views(stack@)).2,
    {
        let (rest, phase, action) = advance_frames(stack);
        (Copier { source, destination, phase, stack: rest }, action)
    }

    /// Whether the run has ended, in success or in failure.
    pub fn is_over(&self) -> (out: bool)
        ensures
            out == (self@.phase is Finished || self@.phase is Aborted),
    {
        match &self.phase {
            Phase::Finished => true,
            Phase::Aborted(_) => true,
            _ => false,
        }
    }
}

} // verus!
