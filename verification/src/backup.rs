//! The backup run: every folder pair of the configuration, in collection
//! order, each mirrored by the copy engine.
//!
//! Before anything is read or written the pairs are checked: a pair whose
//! destination is its source or lies below it would be copied into itself
//! without end, so the first such pair ends the run in `ConfigInvalid`. After
//! that the run is fail-fast: the first pair that fails ends the run with
//! its error, and the pairs after it are not touched. Each pair that has
//! been mirrored is reported before the next one is begun.

use crate::config::{FolderPair, PairView};
use crate::engine::{
    start_spec, step_spec, Action, ActionView, Copier, CopierView, Event, EventView,
};
use crate::error::{BackupError, ErrorView};
use crate::path::{is_within, lies_within};
use vstd::prelude::*;

verus! {

/// The pairs that the vector holds, as the contracts see them.
pub open spec fn pair_views(pairs: Seq<FolderPair>) -> Seq<PairView> {
    pairs.map_values(|pair: FolderPair| pair@)
}

/// The destination of the pair is its source or lies below it.
pub open spec fn nested(pair: PairView) -> bool {
    lies_within(pair.1, pair.0)
}

/// `index` is the place of the first nested pair.
pub open spec fn is_first_nested(pairs: Seq<PairView>, index: int) -> bool {
    &&& 0 <= index < pairs.len()
    &&& nested(pairs[index])
    &&& forall|j: int| 0 <= j < index ==> !nested(#[trigger] pairs[j])
}

/// Some pair is nested.
pub open spec fn has_nested(pairs: Seq<PairView>) -> bool {
    exists|i: int| 0 <= i < pairs.len() && nested(#[trigger] pairs[i])
}

/// The place of the first nested pair, where there is one.
pub open spec fn first_nested(pairs: Seq<PairView>) -> int {
    choose|i: int| is_first_nested(pairs, i)
}

/// What the run is busy with.
enum Stage {
    Copying(Copier),
    Reporting,
    Finished,
    Aborted(BackupError),
}

/// What the run is busy with, as a mathematical value.
pub enum StageView {
    /// The current pair is being mirrored; this is the state of its engine.
    Copying(CopierView),
    /// The current pair has been mirrored and is being reported.
    Reporting,
    /// Every pair has been mirrored and reported.
    Finished,
    /// The run has failed.
    Aborted(ErrorView),
}

impl View for Stage {
    type V = StageView;

    closed spec fn view(&self) -> StageView {
        match self {
            Stage::Copying(copier) => StageView::Copying(copier@),
            Stage::Reporting => StageView::Reporting,
            Stage::Finished => StageView::Finished,
            Stage::Aborted(error) => StageView::Aborted(error@),
        }
    }
}

/// The state of one backup run.
pub struct Backup {
    pairs: Vec<FolderPair>,
    current: usize,
    stage: Stage,
}

/// The mathematical value of a [`Backup`]: the pairs of the run, the place
/// of the current pair, and what the run is busy with.
pub struct BackupView {
    pub pairs: Seq<PairView>,
    pub current: nat,
    pub stage: StageView,
}

impl View for Backup {
    type V = BackupView;

    closed spec fn view(&self) -> BackupView {
        BackupView {
            pairs: pair_views(self.pairs@),
            current: self.current as nat,
            stage: self.stage@,
        }
    }
}

/// The run turns to the pair at `index`: its source is listed, or, where
/// no pair is left, the run finishes.
pub open spec fn begin_pair(pairs: Seq<PairView>, index: nat) -> (BackupView, ActionView) {
    if index < pairs.len() {
        let (copier, action) = start_spec(pairs[index as int].0, pairs[index as int].1);
        (BackupView { pairs, current: index, stage: StageView::Copying(copier) }, action)
    } else {
        (BackupView { pairs, current: index, stage: StageView::Finished }, ActionView::Finish)
    }
}

/// The state and the first action of a run over `pairs`: the first nested
/// pair ends the run before it has begun; without one, the run turns to
/// the first pair.
pub open spec fn backup_start_spec(pairs: Seq<PairView>) -> (BackupView, ActionView) {
    if has_nested(pairs) {
        let at = first_nested(pairs);
        let error = ErrorView::ConfigInvalid { source: pairs[at].0, destination: pairs[at].1 };
        (
            BackupView { pairs, current: at as nat, stage: StageView::Aborted(error) },
            ActionView::Abort(error),
        )
    } else {
        begin_pair(pairs, 0)
    }
}

/// The next state and action of the run, given how the last action went.
/// While a pair is being mirrored its engine decides; when the engine
/// finishes, the pair is reported; when it fails, the run fails with it.
/// After a report the run turns to the next pair. A run that has ended
/// stays ended.
pub open spec fn backup_step_spec(state: BackupView, event: EventView) -> (BackupView, ActionView) {
    match state.stage {
        StageView::Copying(copier) => {
            let (next, action) = step_spec(copier, event);
            match action {
                ActionView::Finish => (
                    BackupView {
                        pairs: state.pairs,
                        current: state.current,
                        stage: StageView::Reporting,
                    },
                    ActionView::Report {
                        source: state.pairs[state.current as int].0,
                        destination: state.pairs[state.current as int].1,
                    },
                ),
                ActionView::Abort(error) => (
                    BackupView {
                        pairs: state.pairs,
                        current: state.current,
                        stage: StageView::Aborted(error),
                    },
                    ActionView::Abort(error),
                ),
                _ => (
                    BackupView {
                        pairs: state.pairs,
                        current: state.current,
                        stage: StageView::Copying(next),
                    },
                    action,
                ),
            }
        },
        StageView::Reporting => begin_pair(state.pairs, state.current + 1),
        StageView::Finished => (state, ActionView::Finish),
        StageView::Aborted(error) => (state, ActionView::Abort(error)),
    }
}

impl Backup {
    #[verifier::type_invariant]
    spec fn inv(self) -> bool {
        (self.stage is Copying || self.stage is Reporting) ==> self.current < self.pairs@.len()
    }

    /// Begins a run over `pairs`, in their order.
    pub fn start(pairs: Vec<FolderPair>) -> (out: (Backup, Action))
        ensures
            (out.0@, out.1@) == backup_start_spec(pair_views(pairs@)),
    {
        let ghost views = pair_views(pairs@);
        let mut i: usize = 0;
        while i < pairs.len()
            invariant
                i <= pairs.len(),
                views == pair_views(pairs@),
                forall|j: int| 0 <= j < i ==> !nested(#[trigger] views[j]),
            decreases pairs.len() - i,
        {
            if is_within(pairs[i].destination(), pairs[i].source()) {
                let error = BackupError::ConfigInvalid {
                    source: pairs[i].source().to_owned(),
                    destination: pairs[i].destination().to_owned(),
                };
                let again = error.clone();
                proof {
                    assert(nested(views[i as int]));
                    assert(is_first_nested(views, i as int));
                    let at = first_nested(views);
                    assert(is_first_nested(views, at));
                    assert(at == i);
                }
                let state = Backup { pairs, current: i, stage: Stage::Aborted(error) };
                return (state, Action::Abort(again));
            }
            i += 1;
        }
        Backup::begin(pairs, 0)
    }

    fn begin(pairs: Vec<FolderPair>, index: usize) -> (out: (Backup, Action))
        ensures
            (out.0@, out.1@) == begin_pair(pair_views(pairs@), index as nat),
    {
        if index < pairs.len() {
            let (copier, action) = Copier::start(pairs[index].source(), pairs[index].destination());
            (Backup { pairs, current: index, stage: Stage::Copying(copier) }, action)
        } else {
            (Backup { pairs, current: index, stage: Stage::Finished }, Action::Finish)
        }
    }

    /// Takes in how the last action went and names the next one.
    pub fn step(self, event: Event) -> (out: (Backup, Action))
        ensures
            (out.0@, out.1@) == backup_step_spec(self@, event@),
    {
        proof {
            use_type_invariant(&self);
        }
        let Backup { pairs, current, stage } = self;
        match stage {
            Stage::Copying(copier) => {
                let (next, action) = copier.step(event);
                match action {
                    Action::Finish => {
                        let report = Action::Report {
                            source: pairs[current].source().to_owned(),
                            destination: pairs[current].destination().to_owned(),
                        };
                        (Backup { pairs, current, stage: Stage::Reporting }, report)
                    },
                    Action::Abort(error) => {
                        let again = error.clone();
                        let state = Backup { pairs, current, stage: Stage::Aborted(error) };
                        (state, Action::Abort(again))
                    },
                    other => (Backup { pairs, current, stage: Stage::Copying(next) }, other),
                }
            },
            Stage::Reporting => {
                let total = pairs.len();
                assert(current < total);
                Backup::begin(pairs, current + 1)
            },
            Stage::Finished => (Backup { pairs, current, stage: Stage::Finished }, Action::Finish),
            Stage::Aborted(error) => {
                let again = error.clone();
                (Backup { pairs, current, stage: Stage::Aborted(error) }, Action::Abort(again))
            },
        }
    }

    /// Whether the run has ended, in success or in failure.
    pub fn is_over(&self) -> (out: bool)
        ensures
            out == (self@.stage is Finished || self@.stage is Aborted),
    {
        match &self.stage {
            Stage::Finished => true,
            Stage::Aborted(_) => true,
            _ => false,
        }
    }
}

} // verus!
