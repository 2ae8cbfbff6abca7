//! Where the copy engine reads and writes, whatever the caller reports:
//! every path it names is built from the source or from the destination of
//! the run by joining entry names, and a file is copied to the path that
//! the same names give under the destination. This holds of runs that fail
//! midway as of runs that finish.

use crate::engine::{
    advance, start_spec, step_spec, top_remaining, ActionView, CopierView, EventView, FrameView,
    PhaseView,
};
use crate::path::joined;
use vstd::prelude::*;

verus! {

/// The path reached from `root` by going down through `names`, in order.
pub open spec fn joined_all(root: Seq<char>, names: Seq<Seq<char>>) -> Seq<char>
    decreases names.len(),
{
    if names.len() == 0 {
        root
    } else {
        joined(joined_all(root, names.drop_last()), names.last())
    }
}

/// `from` and `to` are reached from `source` and `destination` through the
/// same names.
pub open spec fn paired(
    from: Seq<char>,
    to: Seq<char>,
    source: Seq<char>,
    destination: Seq<char>,
) -> bool {
    exists|names: Seq<Seq<char>>|
        from == #[trigger] joined_all(source, names) && to == joined_all(destination, names)
}

/// `path` is reached from `root` through some names.
pub open spec fn descends(path: Seq<char>, root: Seq<char>) -> bool {
    exists|names: Seq<Seq<char>>| path == #[trigger] joined_all(root, names)
}

/// The action keeps to its place in a run from `source` into
/// `destination`: what is listed lies under the source, what is made lies
/// under the destination, and a file is copied from under the source to
/// the path that mirrors its own under the destination. The engine itself
/// reports nothing.
pub open spec fn in_place(action: ActionView, source: Seq<char>, destination: Seq<char>) -> bool {
    match action {
        ActionView::List { path } => descends(path, source),
        ActionView::Ensure { path } => descends(path, destination),
        ActionView::Copy { from, to } => paired(from, to, source, destination),
        ActionView::Report { .. } => false,
        ActionView::Finish => true,
        ActionView::Abort(_) => true,
    }
}

/// The state of the engine and the action it has named after the caller
/// has reported `events`, in order, whatever they are.
pub open spec fn play(source: Seq<char>, destination: Seq<char>, events: Seq<EventView>) -> (
    CopierView,
    ActionView,
)
    decreases events.len(),
{
    if events.len() == 0 {
        start_spec(source, destination)
    } else {
        step_spec(play(source, destination, events.drop_last()).0, events.last())
    }
}

/// Every directory being walked is paired with its mirror.
spec fn frames_anchored(stack: Seq<FrameView>, source: Seq<char>, destination: Seq<char>) -> bool {
    forall|k: int|
        0 <= k < stack.len() ==> paired(
            (#[trigger] stack[k]).source,
            stack[k].destination,
            source,
            destination,
        )
}

/// Every path that the state holds for later use is paired with its mirror.
spec fn anchored(state: CopierView) -> bool {
    &&& frames_anchored(state.stack, state.source, state.destination)
    &&& match state.phase {
        PhaseView::EnsuringDir { source, destination } => paired(
            source,
            destination,
            state.source,
            state.destination,
        ),
        PhaseView::ListingDir { source, destination } => paired(
            source,
            destination,
            state.source,
            state.destination,
        ),
        _ => true,
    }
}

/// The two roots of a run are paired, through no names at all.
proof fn roots_are_paired(source: Seq<char>, destination: Seq<char>)
    ensures
        paired(source, destination, source, destination),
        descends(source, source),
        descends(destination, destination),
{
    let none = Seq::<Seq<char>>::empty();
    assert(source == joined_all(source, none));
    assert(destination == joined_all(destination, none));
}

/// Paired paths descend from the two roots.
proof fn paired_descend(from: Seq<char>, to: Seq<char>, source: Seq<char>, destination: Seq<char>)
    requires
        paired(from, to, source, destination),
    ensures
        descends(from, source),
        descends(to, destination),
{
    let names = choose|names: Seq<Seq<char>>|
        from == #[trigger] joined_all(source, names) && to == joined_all(destination, names);
    assert(from == joined_all(source, names));
    assert(to == joined_all(destination, names));
}

/// The entries of paired directories are paired.
proof fn entries_are_paired(
    from: Seq<char>,
    to: Seq<char>,
    name: Seq<char>,
    source: Seq<char>,
    destination: Seq<char>,
)
    requires
        paired(from, to, source, destination),
    ensures
        paired(joined(from, name), joined(to, name), source, destination),
        descends(joined(from, name), source),
        descends(joined(to, name), destination),
{
    let names = choose|names: Seq<Seq<char>>|
        from == #[trigger] joined_all(source, names) && to == joined_all(destination, names);
    let longer = names.push(name);
    assert(longer.drop_last() =~= names);
    assert(joined(from, name) == joined_all(source, longer));
    assert(joined(to, name) == joined_all(destination, longer));
}

/// Where `advance` lands, everything is still paired and the action keeps
/// to its place.
proof fn advance_keeps_place(stack: Seq<FrameView>, source: Seq<char>, destination: Seq<char>)
    requires
        frames_anchored(stack, source, destination),
    ensures
        ({
            let (rest, phase, action) = advance(stack);
            anchored(CopierView { source, destination, phase, stack: rest }) && in_place(
                action,
                source,
                destination,
            )
        }),
    decreases stack.len(), top_remaining(stack),
{
    if stack.len() > 0 {
        let top = stack.last();
        if top.next >= top.entries.len() {
            advance_keeps_place(stack.drop_last(), source, destination);
        } else {
            let entry = top.entries[top.next as int];
            let rest = stack.drop_last().push(
                FrameView {
                    source: top.source,
                    destination: top.destination,
                    entries: top.entries,
                    next: top.next + 1,
                },
            );
            assert(frames_anchored(rest, source, destination)) by {
                assert forall|k: int| 0 <= k < rest.len() implies paired(
                    (#[trigger] rest[k]).source,
                    rest[k].destination,
                    source,
                    destination,
                ) by {
                    if k < rest.len() - 1 {
                        assert(rest[k] == stack[k]);
                    } else {
                        assert(paired(top.source, top.destination, source, destination));
                    }
                }
            }
            entries_are_paired(top.source, top.destination, entry.name, source, destination);
            advance_keeps_place(rest, source, destination);
        }
    }
}

/// One step keeps everything paired, and the action it names keeps to its
/// place, whatever the event.
proof fn step_keeps_place(state: CopierView, event: EventView)
    requires
        anchored(state),
    ensures
        anchored(step_spec(state, event).0),
        step_spec(state, event).0.source == state.source,
        step_spec(state, event).0.destination == state.destination,
        in_place(step_spec(state, event).1, state.source, state.destination),
{
    roots_are_paired(state.source, state.destination);
    match state.phase {
        PhaseView::ListingRoot => {},
        PhaseView::EnsuringRoot { entries } => {
            if event is Completed {
                let frame = FrameView {
                    source: state.source,
                    destination: state.destination,
                    entries,
                    next: 0,
                };
                assert(frames_anchored(seq![frame], state.source, state.destination));
                advance_keeps_place(seq![frame], state.source, state.destination);
            }
        },
        PhaseView::EnsuringDir { source, destination } => {
            if event is Completed {
                paired_descend(source, destination, state.source, state.destination);
            }
        },
        PhaseView::ListingDir { source, destination } => {
            if let EventView::Listed(entries) = event {
                let frame = FrameView { source, destination, entries, next: 0 };
                let stack = state.stack.push(frame);
                assert(frames_anchored(stack, state.source, state.destination)) by {
                    assert forall|k: int| 0 <= k < stack.len() implies paired(
                        (#[trigger] stack[k]).source,
                        stack[k].destination,
                        state.source,
                        state.destination,
                    ) by {
                        if k < state.stack.len() {
                            assert(stack[k] == state.stack[k]);
                        }
                    }
                }
                advance_keeps_place(stack, state.source, state.destination);
            }
        },
        PhaseView::Copying { to } => {
            if event is Completed {
                advance_keeps_place(state.stack, state.source, state.destination);
            }
        },
        PhaseView::Finished => {},
        PhaseView::Aborted(_) => {},
    }
}

/// However the caller answers, the engine stays anchored at its two roots.
proof fn play_stays_anchored(source: Seq<char>, destination: Seq<char>, events: Seq<EventView>)
    ensures
        anchored(play(source, destination, events).0),
        play(source, destination, events).0.source == source,
        play(source, destination, events).0.destination == destination,
        in_place(play(source, destination, events).1, source, destination),
    decreases events.len(),
{
    if events.len() == 0 {
        roots_are_paired(source, destination);
    } else {
        play_stays_anchored(source, destination, events.drop_last());
        step_keeps_place(play(source, destination, events.drop_last()).0, events.last());
    }
}

/// Reads and writes keep apart: whatever the caller reports, and however
/// the run ends, the engine lists only the source and what is reached from
/// it by entry names, makes directories only at the destination and what
/// is reached from it by entry names, and copies a file only from under
/// the source to the path that the same names give under the destination.
pub proof fn every_action_is_in_place(
    source: Seq<char>,
    destination: Seq<char>,
    events: Seq<EventView>,
)
    ensures
        in_place(play(source, destination, events).1, source, destination),
{
    play_stays_anchored(source, destination, events);
}

} // verus!
