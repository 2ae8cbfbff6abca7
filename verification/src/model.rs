//! A model of the world that the copy engine works in, and what the engine
//! provably does in it.
//!
//! The source is a finite tree of named files and directories. A truthful
//! caller lists directories as the tree has them and reports every write as
//! done. Against such a caller the engine issues exactly the actions of
//! [`script`], in order, and then finishes.

use crate::engine::{
    abort_spec, advance, start_spec, step_spec, top_remaining, ActionView, CopierView, EntryKind,
    EntryView, EventView, FrameView, PhaseView,
};
use crate::error::ErrorView;
use crate::path::joined;
use vstd::prelude::*;

verus! {

/// What a name in a directory stands for.
pub enum Node {
    /// A regular file with these bytes.
    File(Seq<u8>),
    /// A directory with these members, in the order in which it lists them.
    Directory(Seq<Member>),
    /// Something that is neither.
    Other,
}

/// A named member of a directory.
pub struct Member {
    pub name: Seq<char>,
    pub node: Node,
}

/// The kind under which a node is listed.
pub open spec fn kind_of(node: Node) -> EntryKind {
    match node {
        Node::File(_) => EntryKind::File,
        Node::Directory(_) => EntryKind::Directory,
        Node::Other => EntryKind::Other,
    }
}

/// The listing of a directory with these members.
pub open spec fn listing(members: Seq<Member>) -> Seq<EntryView> {
    members.map_values(|member: Member| EntryView { name: member.name, kind: kind_of(member.node) })
}

/// The actions that mirror the members of the directory `source` into the
/// directory `destination`, both of which exist: member by member, in
/// listing order.
pub open spec fn walk(members: Seq<Member>, source: Seq<char>, destination: Seq<char>) -> Seq<
    ActionView,
>
    decreases members,
{
    if members.len() == 0 {
        Seq::empty()
    } else {
        visit(members[0], source, destination) + walk(members.drop_first(), source, destination)
    }
}

/// The actions that mirror one member of the directory `source` into
/// `destination`: a file is copied; a directory has its mirror made, is
/// listed, and is walked; anything else asks for nothing.
pub open spec fn visit(member: Member, source: Seq<char>, destination: Seq<char>) -> Seq<ActionView>
    decreases member,
{
    let from = joined(source, member.name);
    let to = joined(destination, member.name);
    match member.node {
        Node::File(_) => seq![ActionView::Copy { from, to }],
        Node::Directory(inner) => seq![
            ActionView::Ensure { path: to },
            ActionView::List { path: from },
        ] + walk(inner, from, to),
        Node::Other => Seq::empty(),
    }
}

/// Every action of a run that mirrors the tree `members` at `source` into
/// `destination`, in order: the source is listed, the destination is made,
/// and the members are walked.
pub open spec fn script(members: Seq<Member>, source: Seq<char>, destination: Seq<char>) -> Seq<
    ActionView,
> {
    seq![ActionView::List { path: source }, ActionView::Ensure { path: destination }] + walk(
        members,
        source,
        destination,
    )
}

/// What can be read: the listing of every directory and the bytes of every
/// file, by path.
pub struct Source {
    pub dirs: Map<Seq<char>, Seq<EntryView>>,
    pub files: Map<Seq<char>, Seq<u8>>,
}

/// The directory at `path` has exactly these members, all the way down.
pub open spec fn holds_tree(world: Source, members: Seq<Member>, path: Seq<char>) -> bool
    decreases members,
{
    &&& world.dirs.contains_key(path)
    &&& world.dirs[path] == listing(members)
    &&& forall|i: int| 0 <= i < members.len() ==> holds_member(world, #[trigger] members[i], path)
}

/// The directory at `path` has this member, all the way down.
pub open spec fn holds_member(world: Source, member: Member, path: Seq<char>) -> bool
    decreases member,
{
    match member.node {
        Node::File(content) => world.files.contains_key(joined(path, member.name))
            && world.files[joined(path, member.name)] == content,
        Node::Directory(inner) => holds_tree(world, inner, joined(path, member.name)),
        Node::Other => true,
    }
}

/// How a truthful caller answers an action: a directory that exists is
/// listed as it is, one that does not exist cannot be listed, and anything
/// else is done.
pub open spec fn respond(world: Source, action: ActionView) -> EventView {
    match action {
        ActionView::List { path } => if world.dirs.contains_key(path) {
            EventView::Listed(world.dirs[path])
        } else {
            EventView::Failed
        },
        _ => EventView::Completed,
    }
}

/// The state of the engine and the action it has named after `rounds`
/// answers of a truthful caller.
pub open spec fn run(world: Source, source: Seq<char>, destination: Seq<char>, rounds: nat) -> (
    CopierView,
    ActionView,
)
    decreases rounds,
{
    if rounds == 0 {
        start_spec(source, destination)
    } else {
        let (state, action) = run(world, source, destination, (rounds - 1) as nat);
        step_spec(state, respond(world, action))
    }
}

/// The actions that the directories being walked still ask for, innermost
/// first; `shadow` holds the members of each.
spec fn remaining(stack: Seq<FrameView>, shadow: Seq<Seq<Member>>) -> Seq<ActionView>
    decreases stack.len(),
{
    if stack.len() == 0 {
        Seq::empty()
    } else {
        let top = stack.last();
        walk(shadow.last().skip(top.next as int), top.source, top.destination) + remaining(
            stack.drop_last(),
            shadow.drop_last(),
        )
    }
}

/// Each directory being walked is listed as its members in `shadow` say,
/// and is in the world with them.
spec fn tracks(world: Source, stack: Seq<FrameView>, shadow: Seq<Seq<Member>>) -> bool {
    &&& shadow.len() == stack.len()
    &&& forall|k: int|
        0 <= k < stack.len() ==> {
            &&& (#[trigger] stack[k]).entries == listing(shadow[k])
            &&& stack[k].next <= shadow[k].len()
            &&& holds_tree(world, shadow[k], stack[k].source)
        }
}

/// The member of the innermost directory that was reached last.
spec fn entered(stack: Seq<FrameView>, shadow: Seq<Seq<Member>>) -> Member {
    shadow.last()[stack.last().next - 1]
}

/// The engine is entering the subdirectory `source`, mirrored at
/// `destination`.
spec fn entering(
    stack: Seq<FrameView>,
    shadow: Seq<Seq<Member>>,
    source: Seq<char>,
    destination: Seq<char>,
) -> bool {
    &&& stack.len() > 0
    &&& stack.last().next >= 1
    &&& entered(stack, shadow).node is Directory
    &&& source == joined(stack.last().source, entered(stack, shadow).name)
    &&& destination == joined(stack.last().destination, entered(stack, shadow).name)
}

/// The engine and its pending action are where a truthful run over `tree`
/// can be.
spec fn consistent(
    world: Source,
    state: CopierView,
    action: ActionView,
    tree: Seq<Member>,
    shadow: Seq<Seq<Member>>,
) -> bool {
    &&& tracks(world, state.stack, shadow)
    &&& holds_tree(world, tree, state.source)
    &&& match state.phase {
        PhaseView::ListingRoot => state.stack.len() == 0 && action == (ActionView::List {
            path: state.source,
        }),
        PhaseView::EnsuringRoot { entries } => state.stack.len() == 0 && entries == listing(tree)
            && action == (ActionView::Ensure { path: state.destination }),
        PhaseView::EnsuringDir { source, destination } => entering(
            state.stack,
            shadow,
            source,
            destination,
        ) && action == (ActionView::Ensure { path: destination }),
        PhaseView::ListingDir { source, destination } => entering(
            state.stack,
            shadow,
            source,
            destination,
        ) && action == (ActionView::List { path: source }),
        PhaseView::Copying { to } => action is Copy,
        PhaseView::Finished => action is Finish,
        PhaseView::Aborted(_) => false,
    }
}

/// The actions still to come, the pending one first.
spec fn pending(
    state: CopierView,
    action: ActionView,
    tree: Seq<Member>,
    shadow: Seq<Seq<Member>>,
) -> Seq<ActionView> {
    match state.phase {
        PhaseView::ListingRoot => script(tree, state.source, state.destination),
        PhaseView::EnsuringRoot { entries } => seq![action] + walk(
            tree,
            state.source,
            state.destination,
        ),
        PhaseView::EnsuringDir { source, destination } => seq![
            action,
            ActionView::List { path: source },
        ] + walk(entered(state.stack, shadow).node->Directory_0, source, destination) + remaining(
            state.stack,
            shadow,
        ),
        PhaseView::ListingDir { source, destination } => seq![action] + walk(
            entered(state.stack, shadow).node->Directory_0,
            source,
            destination,
        ) + remaining(state.stack, shadow),
        PhaseView::Copying { to } => seq![action] + remaining(state.stack, shadow),
        PhaseView::Finished => Seq::empty(),
        PhaseView::Aborted(_) => Seq::empty(),
    }
}

/// Walking on from member `next` starts with that member.
proof fn walk_unfolds(members: Seq<Member>, next: int, source: Seq<char>, destination: Seq<char>)
    requires
        0 <= next < members.len(),
    ensures
        walk(members.skip(next), source, destination) == visit(members[next], source, destination)
            + walk(members.skip(next + 1), source, destination),
{
    assert(members.skip(next).drop_first() =~= members.skip(next + 1));
}

/// Where `advance` lands, the actions still to come are those that the
/// directories being walked asked for.
proof fn advance_keeps_pending(
    world: Source,
    state: CopierView,
    stack: Seq<FrameView>,
    tree: Seq<Member>,
    shadow: Seq<Seq<Member>>,
) -> (next_shadow: Seq<Seq<Member>>)
    requires
        tracks(world, stack, shadow),
        holds_tree(world, tree, state.source),
    ensures
        ({
            let (rest, phase, action) = advance(stack);
            let next = CopierView {
                source: state.source,
                destination: state.destination,
                phase,
                stack: rest,
            };
            consistent(world, next, action, tree, next_shadow) && pending(
                next,
                action,
                tree,
                next_shadow,
            ) == remaining(stack, shadow)
        }),
    decreases stack.len(), top_remaining(stack),
{
    if stack.len() == 0 {
        shadow
    } else {
        let top = stack.last();
        let members = shadow.last();
        if top.next >= top.entries.len() {
            assert(members.skip(top.next as int) =~= Seq::<Member>::empty());
            assert(walk(members.skip(top.next as int), top.source, top.destination)
                =~= Seq::<ActionView>::empty());
            assert(remaining(stack, shadow) =~= remaining(stack.drop_last(), shadow.drop_last()));
            advance_keeps_pending(world, state, stack.drop_last(), tree, shadow.drop_last())
        } else {
            let index = top.next as int;
            let member = members[index];
            let moved = FrameView {
                source: top.source,
                destination: top.destination,
                entries: top.entries,
                next: top.next + 1,
            };
            let rest = stack.drop_last().push(moved);
            let kept = shadow.drop_last().push(members);
            assert(kept =~= shadow);
            assert(top.entries[index] == EntryView {
                name: member.name,
                kind: kind_of(member.node),
            });
            walk_unfolds(members, index, top.source, top.destination);
            assert(rest.drop_last() =~= stack.drop_last());
            assert(tracks(world, rest, shadow)) by {
                assert forall|k: int| 0 <= k < rest.len() implies {
                    &&& (#[trigger] rest[k]).entries == listing(shadow[k])
                    &&& rest[k].next <= shadow[k].len()
                    &&& holds_tree(world, shadow[k], rest[k].source)
                } by {
                    if k < rest.len() - 1 {
                        assert(rest[k] == stack[k]);
                    }
                }
            }
            assert(remaining(rest, shadow) == walk(
                members.skip(index + 1),
                top.source,
                top.destination,
            ) + remaining(stack.drop_last(), shadow.drop_last()));
            match member.node {
                Node::File(_) => {
                    assert(remaining(stack, shadow) =~= pending(
                        CopierView {
                            source: state.source,
                            destination: state.destination,
                            phase: advance(stack).1,
                            stack: rest,
                        },
                        advance(stack).2,
                        tree,
                        shadow,
                    ));
                    shadow
                },
                Node::Directory(inner) => {
                    assert(entered(rest, shadow) == member);
                    assert(remaining(stack, shadow) =~= pending(
                        CopierView {
                            source: state.source,
                            destination: state.destination,
                            phase: advance(stack).1,
                            stack: rest,
                        },
                        advance(stack).2,
                        tree,
                        shadow,
                    ));
                    shadow
                },
                Node::Other => {
                    assert(remaining(stack, shadow) =~= remaining(rest, shadow));
                    advance_keeps_pending(world, state, rest, tree, shadow)
                },
            }
        }
    }
}

/// A truthful answer to the pending action takes the engine one action
/// further along what was still to come.
proof fn step_keeps_pending(
    world: Source,
    state: CopierView,
    action: ActionView,
    tree: Seq<Member>,
    shadow: Seq<Seq<Member>>,
) -> (next_shadow: Seq<Seq<Member>>)
    requires
        consistent(world, state, action, tree, shadow),
        !(state.phase is Finished),
    ensures
        ({
            let (next, named) = step_spec(state, respond(world, action));
            &&& consistent(world, next, named, tree, next_shadow)
            &&& pending(state, action, tree, shadow) == seq![action] + pending(
                next,
                named,
                tree,
                next_shadow,
            )
            &&& next.source == state.source
            &&& next.destination == state.destination
        }),
{
    let (next, named) = step_spec(state, respond(world, action));
    match state.phase {
        PhaseView::ListingRoot => {
            assert(pending(state, action, tree, shadow) =~= seq![action] + pending(
                next,
                named,
                tree,
                shadow,
            ));
            shadow
        },
        PhaseView::EnsuringRoot { entries } => {
            let frame = FrameView {
                source: state.source,
                destination: state.destination,
                entries,
                next: 0,
            };
            let stack = seq![frame];
            let members = seq![tree];
            assert(tree.skip(0) =~= tree);
            assert(stack.drop_last() =~= Seq::<FrameView>::empty());
            assert(remaining(stack, members) =~= walk(tree, state.source, state.destination)) by {
                assert(remaining(stack.drop_last(), members.drop_last()) =~= Seq::<
                    ActionView,
                >::empty());
            }
            advance_keeps_pending(world, state, stack, tree, members)
        },
        PhaseView::EnsuringDir { source, destination } => {
            assert(pending(state, action, tree, shadow) =~= seq![action] + pending(
                next,
                named,
                tree,
                shadow,
            ));
            shadow
        },
        PhaseView::ListingDir { source, destination } => {
            let top = state.stack.last();
            let member = entered(state.stack, shadow);
            let inner = member.node->Directory_0;
            assert(holds_tree(world, shadow.last(), top.source));
            assert(holds_member(world, shadow.last()[top.next - 1], top.source));
            assert(holds_tree(world, inner, source));
            let frame = FrameView { source, destination, entries: listing(inner), next: 0 };
            let stack = state.stack.push(frame);
            let members = shadow.push(inner);
            assert(inner.skip(0) =~= inner);
            assert(stack.drop_last() =~= state.stack);
            assert(members.drop_last() =~= shadow);
            assert(remaining(stack, members) == walk(inner, source, destination) + remaining(
                state.stack,
                shadow,
            ));
            let next_shadow = advance_keeps_pending(world, state, stack, tree, members);
            assert(pending(state, action, tree, shadow) =~= seq![action] + pending(
                next,
                named,
                tree,
                next_shadow,
            ));
            next_shadow
        },
        PhaseView::Copying { to } => advance_keeps_pending(world, state, state.stack, tree, shadow),
        PhaseView::Finished => shadow,
        PhaseView::Aborted(_) => shadow,
    }
}

/// Of the actions still to come, the first is the pending one.
proof fn pending_starts_with_action(
    world: Source,
    state: CopierView,
    action: ActionView,
    tree: Seq<Member>,
    shadow: Seq<Seq<Member>>,
)
    requires
        consistent(world, state, action, tree, shadow),
        !(state.phase is Finished),
    ensures
        pending(state, action, tree, shadow).len() > 0,
        pending(state, action, tree, shadow)[0] == action,
{
    let rest = remaining(state.stack, shadow);
    match state.phase {
        PhaseView::ListingRoot => {
            let head = seq![
                ActionView::List { path: state.source },
                ActionView::Ensure { path: state.destination },
            ];
            assert(head[0] == action);
            assert((head + walk(tree, state.source, state.destination))[0] == head[0]);
        },
        PhaseView::EnsuringRoot { entries } => {
            assert((seq![action] + walk(tree, state.source, state.destination))[0] == action);
        },
        PhaseView::EnsuringDir { source, destination } => {
            let head = seq![action, ActionView::List { path: source }];
            let inner = entered(state.stack, shadow).node->Directory_0;
            let front = head + walk(inner, source, destination);
            assert(front[0] == head[0]);
            assert((front + rest)[0] == front[0]);
        },
        PhaseView::ListingDir { source, destination } => {
            let inner = entered(state.stack, shadow).node->Directory_0;
            let front = seq![action] + walk(inner, source, destination);
            assert(front[0] == action);
            assert((front + rest)[0] == front[0]);
        },
        PhaseView::Copying { to } => {
            assert((seq![action] + rest)[0] == action);
        },
        PhaseView::Finished => {},
        PhaseView::Aborted(_) => {},
    }
}

/// For as long as the script lasts, a truthful run is on it.
proof fn run_stays_on_script(
    world: Source,
    tree: Seq<Member>,
    source: Seq<char>,
    destination: Seq<char>,
    rounds: nat,
) -> (shadow: Seq<Seq<Member>>)
    requires
        holds_tree(world, tree, source),
        rounds <= script(tree, source, destination).len(),
    ensures
        ({
            let (state, action) = run(world, source, destination, rounds);
            &&& consistent(world, state, action, tree, shadow)
            &&& pending(state, action, tree, shadow) == script(tree, source, destination).skip(
                rounds as int,
            )
            &&& state.source == source
            &&& state.destination == destination
        }),
    decreases rounds,
{
    let whole = script(tree, source, destination);
    if rounds == 0 {
        assert(whole.skip(0) =~= whole);
        Seq::empty()
    } else {
        let before = run_stays_on_script(world, tree, source, destination, (rounds - 1) as nat);
        let (state, action) = run(world, source, destination, (rounds - 1) as nat);
        assert(whole.skip(rounds - 1).len() > 0);
        let after = step_keeps_pending(world, state, action, tree, before);
        let (next, named) = step_spec(state, respond(world, action));
        assert(whole.skip(rounds - 1).skip(1) =~= whole.skip(rounds as int));
        assert((seq![action] + pending(next, named, tree, after)).skip(1) =~= pending(
            next,
            named,
            tree,
            after,
        ));
        after
    }
}

/// Mirror run: a caller that lists the source tree as it is and carries out
/// every write is asked for exactly the actions of [`script`], in order;
/// after the last of them the engine finishes, and stays finished.
pub proof fn run_follows_script(
    world: Source,
    tree: Seq<Member>,
    source: Seq<char>,
    destination: Seq<char>,
    rounds: nat,
)
    requires
        holds_tree(world, tree, source),
    ensures
        rounds < script(tree, source, destination).len() ==> run(
            world,
            source,
            destination,
            rounds,
        ).1 == script(tree, source, destination)[rounds as int],
        rounds >= script(tree, source, destination).len() ==> run(
            world,
            source,
            destination,
            rounds,
        ).0.phase is Finished && run(world, source, destination, rounds).1 == ActionView::Finish,
    decreases rounds,
{
    let whole = script(tree, source, destination);
    if rounds <= whole.len() {
        let shadow = run_stays_on_script(world, tree, source, destination, rounds);
        let (state, action) = run(world, source, destination, rounds);
        if rounds < whole.len() {
            assert(whole.skip(rounds as int)[0] == whole[rounds as int]);
            assert(pending(state, action, tree, shadow).len() > 0);
            pending_starts_with_action(world, state, action, tree, shadow);
        } else {
            assert(whole.skip(rounds as int).len() == 0);
            assert(state.phase is Finished);
        }
    } else {
        run_follows_script(world, tree, source, destination, (rounds - 1) as nat);
    }
}

/// Missing source: where the source directory cannot be listed, the only
/// action before the run fails is the attempt to list it, so nothing is
/// written, and the run ends in `SourceUnreadable` with the source path.
pub proof fn missing_source_fails(
    world: Source,
    source: Seq<char>,
    destination: Seq<char>,
    rounds: nat,
)
    requires
        !world.dirs.contains_key(source),
    ensures
        run(world, source, destination, 0).1 == (ActionView::List { path: source }),
        rounds >= 1 ==> run(world, source, destination, rounds) == abort_spec(
            start_spec(source, destination).0,
            ErrorView::SourceUnreadable { path: source },
        ),
    decreases rounds,
{
    if rounds >= 1 {
        missing_source_fails(world, source, destination, (rounds - 1) as nat);
    }
}

} // verus!
