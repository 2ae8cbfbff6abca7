//! What a whole backup run does against a truthful caller: the pairs are
//! mirrored one after another, in collection order, each followed by its
//! report; when a pair is reported its destination holds the mirror of its
//! source; and a second run over unchanged sources changes nothing.

use crate::backup::{
    backup_start_spec, backup_step_spec, begin_pair, has_nested, BackupView, StageView,
};
use crate::config::PairView;
use crate::engine::{start_spec, step_spec, ActionView};
use crate::mirror::{
    perform_all, perform_all_splits, repeating_changes_nothing, script_mirrors, shows_tree,
    well_named, Disk, Object,
};
use crate::model::{
    holds_tree, respond, run, run_follows_script, script, visit, walk, Member, Node, Source,
};
use vstd::prelude::*;

verus! {

/// The state of the run and the action it has named after `rounds` answers
/// of a truthful caller.
pub open spec fn backup_run(world: Source, pairs: Seq<PairView>, rounds: nat) -> (
    BackupView,
    ActionView,
)
    decreases rounds,
{
    if rounds == 0 {
        backup_start_spec(pairs)
    } else {
        let (state, action) = backup_run(world, pairs, (rounds - 1) as nat);
        backup_step_spec(state, respond(world, action))
    }
}

/// The report of the pair.
pub open spec fn report_of(pair: PairView) -> ActionView {
    ActionView::Report { source: pair.0, destination: pair.1 }
}

/// Every action of a backup of the pairs from place `from` on, where
/// `trees[i]` is the source tree of the pair at place `i`: for each pair
/// the script that mirrors its tree, then its report.
pub open spec fn backup_script(pairs: Seq<PairView>, trees: Seq<Seq<Member>>, from: nat) -> Seq<
    ActionView,
>
    decreases pairs.len() - from,
{
    if from >= pairs.len() {
        Seq::empty()
    } else {
        script(trees[from as int], pairs[from as int].0, pairs[from as int].1) + seq![
            report_of(pairs[from as int]),
        ] + backup_script(pairs, trees, from + 1)
    }
}

/// The action is one that asks the caller to list, make or copy.
spec fn is_work(action: ActionView) -> bool {
    action is List || action is Ensure || action is Copy
}

spec fn all_work(actions: Seq<ActionView>) -> bool {
    forall|k: int| 0 <= k < actions.len() ==> is_work(#[trigger] actions[k])
}

proof fn walk_is_all_work(members: Seq<Member>, source: Seq<char>, destination: Seq<char>)
    ensures
        all_work(walk(members, source, destination)),
    decreases members,
{
    if members.len() > 0 {
        visit_is_all_work(members[0], source, destination);
        walk_is_all_work(members.drop_first(), source, destination);
    }
}

proof fn visit_is_all_work(member: Member, source: Seq<char>, destination: Seq<char>)
    ensures
        all_work(visit(member, source, destination)),
    decreases member,
{
    if let Node::Directory(inner) = member.node {
        walk_is_all_work(
            inner,
            crate::path::joined(source, member.name),
            crate::path::joined(destination, member.name),
        );
    }
}

/// While the script of the current pair lasts, the run is where the copy
/// engine is on that pair; once it is over, the pair is being reported.
proof fn pair_is_mirrored_then_reported(
    world: Source,
    pairs: Seq<PairView>,
    tree: Seq<Member>,
    at: nat,
    offset: nat,
    k: nat,
)
    requires
        at < pairs.len(),
        holds_tree(world, tree, pairs[at as int].0),
        backup_run(world, pairs, offset) == begin_pair(pairs, at),
        k <= script(tree, pairs[at as int].0, pairs[at as int].1).len(),
    ensures
        ({
            let whole = script(tree, pairs[at as int].0, pairs[at as int].1);
            let (state, action) = backup_run(world, pairs, offset + k);
            let (copier, named) = run(world, pairs[at as int].0, pairs[at as int].1, k);
            &&& state.pairs == pairs
            &&& state.current == at
            &&& k < whole.len() ==> state.stage == StageView::Copying(copier) && action == named
                && action == whole[k as int]
            &&& k == whole.len() ==> state.stage is Reporting && action == report_of(
                pairs[at as int],
            )
        }),
    decreases k,
{
    let source = pairs[at as int].0;
    let destination = pairs[at as int].1;
    let whole = script(tree, source, destination);
    run_follows_script(world, tree, source, destination, k);
    if k > 0 {
        pair_is_mirrored_then_reported(world, pairs, tree, at, offset, (k - 1) as nat);
        run_follows_script(world, tree, source, destination, (k - 1) as nat);
        if k < whole.len() {
            walk_is_all_work(tree, source, destination);
            assert(is_work(whole[k as int])) by {
                if k >= 2 {
                    assert(whole[k as int] == walk(tree, source, destination)[k - 2]);
                }
            }
        }
    }
}

/// From the place where the run turns to the pair at `at`, it issues the
/// scripts and reports of that pair and of all the pairs after it, and
/// then finishes.
proof fn rest_follows_scripts(
    world: Source,
    pairs: Seq<PairView>,
    trees: Seq<Seq<Member>>,
    at: nat,
    offset: nat,
    k: nat,
)
    requires
        trees.len() == pairs.len(),
        forall|i: int| 0 <= i < pairs.len() ==> holds_tree(world, #[trigger] trees[i], pairs[i].0),
        at <= pairs.len(),
        backup_run(world, pairs, offset) == begin_pair(pairs, at),
    ensures
        k < backup_script(pairs, trees, at).len() ==> backup_run(world, pairs, offset + k).1
            == backup_script(pairs, trees, at)[k as int],
        k >= backup_script(pairs, trees, at).len() ==> backup_run(world, pairs, offset + k).1
            == ActionView::Finish,
    decreases pairs.len() - at,
{
    if at >= pairs.len() {
        finished_stays_finished(world, pairs, offset, k);
    } else {
        let tree = trees[at as int];
        let whole = script(tree, pairs[at as int].0, pairs[at as int].1);
        let later = backup_script(pairs, trees, at + 1);
        let front = whole + seq![report_of(pairs[at as int])];
        assert(backup_script(pairs, trees, at) == front + later);
        if k <= whole.len() {
            pair_is_mirrored_then_reported(world, pairs, tree, at, offset, k);
            if k < whole.len() {
                assert(front[k as int] == whole[k as int]);
            }
            assert((front + later)[k as int] == front[k as int]);
        } else {
            pair_is_mirrored_then_reported(world, pairs, tree, at, offset, whole.len());
            let next = offset + whole.len() + 1;
            assert(backup_run(world, pairs, next) == begin_pair(pairs, at + 1)) by {
                assert(backup_run(world, pairs, (next - 1) as nat).0.stage is Reporting);
            }
            let further = (k - whole.len() - 1) as nat;
            rest_follows_scripts(world, pairs, trees, at + 1, next, further);
            assert(next + further == offset + k);
            if further < later.len() {
                assert((front + later)[k as int] == later[further as int]);
            }
        }
    }
}

/// A run that has finished stays finished.
proof fn finished_stays_finished(world: Source, pairs: Seq<PairView>, offset: nat, k: nat)
    requires
        backup_run(world, pairs, offset).0.stage is Finished,
        backup_run(world, pairs, offset).1 == ActionView::Finish,
    ensures
        backup_run(world, pairs, offset + k).0.stage is Finished,
        backup_run(world, pairs, offset + k).1 == ActionView::Finish,
    decreases k,
{
    if k > 0 {
        finished_stays_finished(world, pairs, offset, (k - 1) as nat);
    }
}

/// Pairs in order: where no destination lies within its source and every
/// source tree can be read, a truthful caller is asked, pair after pair in
/// collection order, for the script that mirrors the pair and then for
/// its report; after the last report the run finishes, and stays finished.
pub proof fn backup_follows_scripts(
    world: Source,
    pairs: Seq<PairView>,
    trees: Seq<Seq<Member>>,
    rounds: nat,
)
    requires
        !has_nested(pairs),
        trees.len() == pairs.len(),
        forall|i: int| 0 <= i < pairs.len() ==> holds_tree(world, #[trigger] trees[i], pairs[i].0),
    ensures
        rounds < backup_script(pairs, trees, 0).len() ==> backup_run(world, pairs, rounds).1
            == backup_script(pairs, trees, 0)[rounds as int],
        rounds >= backup_script(pairs, trees, 0).len() ==> backup_run(world, pairs, rounds).1
            == ActionView::Finish,
{
    rest_follows_scripts(world, pairs, trees, 0, 0, rounds);
}

/// Fail-fast: once the run has failed, every further step names the same
/// failure and nothing else, whatever the caller reports.
pub proof fn failed_run_stays_failed(world: Source, pairs: Seq<PairView>, rounds: nat, later: nat)
    requires
        backup_run(world, pairs, rounds).1 is Abort,
        later >= rounds,
    ensures
        backup_run(world, pairs, later).1 == backup_run(world, pairs, rounds).1,
    decreases later - rounds,
{
    if later > rounds {
        failed_run_stays_failed(world, pairs, rounds, (later - 1) as nat);
        aborting_is_aborted(world, pairs, (later - 1) as nat);
    }
}

/// A run names a failure only when it has failed with it.
proof fn aborting_is_aborted(world: Source, pairs: Seq<PairView>, rounds: nat)
    requires
        backup_run(world, pairs, rounds).1 is Abort,
    ensures
        backup_run(world, pairs, rounds).0.stage == StageView::Aborted(
            backup_run(world, pairs, rounds).1->Abort_0,
        ),
    decreases rounds,
{
    if rounds > 0 {
        let (state, action) = backup_run(world, pairs, (rounds - 1) as nat);
        if action is Abort {
            aborting_is_aborted(world, pairs, (rounds - 1) as nat);
        } else if let StageView::Copying(copier) = state.stage {
            let (next, named) = step_spec(copier, respond(world, action));
            assert(named is Abort);
        } else if state.stage is Reporting {
            let following = (state.current + 1) as int;
            if following < pairs.len() {
                assert(start_spec(pairs[following].0, pairs[following].1).1 is List);
            }
        }
    }
}

/// The first `rounds` actions that the run names to a truthful caller.
pub open spec fn backup_issued(world: Source, pairs: Seq<PairView>, rounds: nat) -> Seq<
    ActionView,
> {
    Seq::new(rounds, |k: int| backup_run(world, pairs, k as nat).1)
}

/// The destinations after a truthful caller has carried out the first
/// `rounds` actions of a backup, having started from `before`.
pub open spec fn backup_outcome(
    world: Source,
    pairs: Seq<PairView>,
    before: Disk,
    rounds: nat,
) -> Disk {
    perform_all(before, world, backup_issued(world, pairs, rounds))
}

/// The number of rounds after which the run turns to the pair at `at`:
/// for each pair before it, the length of its script and one for its
/// report.
pub open spec fn rounds_before(pairs: Seq<PairView>, trees: Seq<Seq<Member>>, at: nat) -> nat
    decreases at,
{
    if at == 0 {
        0
    } else {
        let last = (at - 1) as int;
        rounds_before(pairs, trees, (at - 1) as nat) + script(
            trees[last],
            pairs[last].0,
            pairs[last].1,
        ).len() + 1
    }
}

/// Idempotent backup: a second backup of the same length over unchanged
/// sources leaves every destination exactly as the first left it.
pub proof fn second_backup_changes_nothing(
    world: Source,
    pairs: Seq<PairView>,
    before: Disk,
    rounds: nat,
)
    ensures
        backup_outcome(world, pairs, backup_outcome(world, pairs, before, rounds), rounds)
            == backup_outcome(world, pairs, before, rounds),
{
    repeating_changes_nothing(before, world, backup_issued(world, pairs, rounds));
}

/// After the rounds of the pairs before it, the run turns to the pair at
/// `at`.
proof fn run_turns_to_pair(
    world: Source,
    pairs: Seq<PairView>,
    trees: Seq<Seq<Member>>,
    at: nat,
)
    requires
        !has_nested(pairs),
        trees.len() == pairs.len(),
        forall|i: int| 0 <= i < pairs.len() ==> holds_tree(world, #[trigger] trees[i], pairs[i].0),
        at <= pairs.len(),
    ensures
        backup_run(world, pairs, rounds_before(pairs, trees, at)) == begin_pair(pairs, at),
    decreases at,
{
    if at > 0 {
        let last = (at - 1) as nat;
        let offset = rounds_before(pairs, trees, last);
        let tree = trees[last as int];
        let whole = script(tree, pairs[last as int].0, pairs[last as int].1);
        run_turns_to_pair(world, pairs, trees, last);
        pair_is_mirrored_then_reported(world, pairs, tree, last, offset, whole.len());
        assert(backup_run(world, pairs, offset + whole.len()).0.stage is Reporting);
        assert(rounds_before(pairs, trees, at) == offset + whole.len() + 1);
    }
}

/// Every pair mirrored: in a backup of pairs none of which is nested and
/// whose source trees can be read, the run reports the pair at `at` right
/// after the script of that pair, and at that moment the destination of
/// the pair is a directory that holds every file of the pair's source tree
/// with its bytes and every directory of it, each at the mirrored path.
pub proof fn pair_is_mirrored_when_reported(
    world: Source,
    pairs: Seq<PairView>,
    trees: Seq<Seq<Member>>,
    at: nat,
    before: Disk,
)
    requires
        !has_nested(pairs),
        trees.len() == pairs.len(),
        forall|i: int| 0 <= i < pairs.len() ==> holds_tree(world, #[trigger] trees[i], pairs[i].0),
        at < pairs.len(),
        well_named(trees[at as int]),
    ensures
        ({
            let pair = pairs[at as int];
            let rounds = rounds_before(pairs, trees, at) + script(
                trees[at as int],
                pair.0,
                pair.1,
            ).len();
            let disk = backup_outcome(world, pairs, before, rounds);
            &&& backup_run(world, pairs, rounds).1 == report_of(pair)
            &&& disk.contains_key(pair.1)
            &&& disk[pair.1] == Object::Directory
            &&& shows_tree(disk, trees[at as int], pair.1)
        }),
{
    let pair = pairs[at as int];
    let tree = trees[at as int];
    let whole = script(tree, pair.0, pair.1);
    let offset = rounds_before(pairs, trees, at);
    let earlier = backup_issued(world, pairs, offset);
    let named = backup_issued(world, pairs, offset + whole.len());
    run_turns_to_pair(world, pairs, trees, at);
    pair_is_mirrored_then_reported(world, pairs, tree, at, offset, whole.len());
    assert forall|k: int| 0 <= k < whole.len() implies named[offset + k] == whole[k] by {
        pair_is_mirrored_then_reported(world, pairs, tree, at, offset, k as nat);
    }
    assert(named =~= earlier + whole);
    perform_all_splits(before, world, earlier, whole);
    script_mirrors(world, tree, pair.0, pair.1, perform_all(before, world, earlier));
}

} // verus!
