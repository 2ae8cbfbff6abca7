//! What a run of the copy engine leaves in the destination.
//!
//! The destination is modelled as a map from path to what is there. Making
//! a directory and copying a file each put one object at one path; the
//! other actions write nothing. The runs spoken of are those in which the
//! caller could carry out every write. On that model a complete run over a
//! source tree leaves the tree's mirror in the destination and touches
//! nothing else, and a second run over an unchanged source changes
//! nothing.

use crate::engine::{ActionView, EntryKind};
use crate::model::{
    holds_member, holds_tree, missing_source_fails, run, run_follows_script, script, visit, walk,
    Member, Node, Source,
};
use crate::path::{
    joined, joined_is_longer, plain_name, siblings_are_apart, sits_under,
    under_entry_is_under_dir,
};
use vstd::prelude::*;
use vstd::set_lib::lemma_set_disjoint_lens;

verus! {

/// What is at a path of the destination.
pub enum Object {
    /// A file with these bytes.
    File(Seq<u8>),
    /// A directory.
    Directory,
}

/// The destination: what is at each path that holds anything.
pub type Disk = Map<Seq<char>, Object>;

/// The destination after `action` has been carried out: a directory made
/// sure of is there, a copied file has the bytes of its source, and
/// nothing else changes.
pub open spec fn perform(disk: Disk, world: Source, action: ActionView) -> Disk {
    match action {
        ActionView::Ensure { path } => disk.insert(path, Object::Directory),
        ActionView::Copy { from, to } => disk.insert(to, Object::File(world.files[from])),
        _ => disk,
    }
}

/// The destination after the actions have been carried out in order.
pub open spec fn perform_all(disk: Disk, world: Source, actions: Seq<ActionView>) -> Disk
    decreases actions.len(),
{
    if actions.len() == 0 {
        disk
    } else {
        perform(perform_all(disk, world, actions.drop_last()), world, actions.last())
    }
}

/// The first `rounds` actions that the engine names to a truthful caller.
pub open spec fn issued(
    world: Source,
    source: Seq<char>,
    destination: Seq<char>,
    rounds: nat,
) -> Seq<ActionView> {
    Seq::new(rounds, |k: int| run(world, source, destination, k as nat).1)
}

/// The destination after a truthful caller has carried out the first
/// `rounds` actions of a run, having started from `before`.
pub open spec fn outcome(
    world: Source,
    source: Seq<char>,
    destination: Seq<char>,
    before: Disk,
    rounds: nat,
) -> Disk {
    perform_all(before, world, issued(world, source, destination, rounds))
}

/// Carrying out actions puts what they write over what was there.
proof fn perform_all_overlays(disk: Disk, world: Source, actions: Seq<ActionView>)
    ensures
        perform_all(disk, world, actions) == disk.union_prefer_right(
            perform_all(Map::empty(), world, actions),
        ),
    decreases actions.len(),
{
    if actions.len() == 0 {
        assert(disk.union_prefer_right(Map::empty()) =~= disk);
    } else {
        perform_all_overlays(disk, world, actions.drop_last());
        let earlier = perform_all(Map::empty(), world, actions.drop_last());
        assert(perform(disk.union_prefer_right(earlier), world, actions.last())
            =~= disk.union_prefer_right(perform(earlier, world, actions.last())));
    }
}

/// Carrying out the same actions a second time changes nothing.
pub proof fn repeating_changes_nothing(disk: Disk, world: Source, actions: Seq<ActionView>)
    ensures
        perform_all(perform_all(disk, world, actions), world, actions) == perform_all(
            disk,
            world,
            actions,
        ),
{
    let once = perform_all(disk, world, actions);
    let written = perform_all(Map::empty(), world, actions);
    perform_all_overlays(disk, world, actions);
    perform_all_overlays(once, world, actions);
    assert(disk.union_prefer_right(written).union_prefer_right(written)
        =~= disk.union_prefer_right(written));
}

/// Idempotent re-copy: a second run of the same length over an unchanged
/// source leaves the destination exactly as the first run left it.
pub proof fn second_run_changes_nothing(
    world: Source,
    source: Seq<char>,
    destination: Seq<char>,
    before: Disk,
    rounds: nat,
)
    ensures
        outcome(
            world,
            source,
            destination,
            outcome(world, source, destination, before, rounds),
            rounds,
        ) == outcome(world, source, destination, before, rounds),
{
    repeating_changes_nothing(before, world, issued(world, source, destination, rounds));
}

/// Carrying out one sequence of actions after another is carrying out
/// their concatenation.
pub proof fn perform_all_splits(
    disk: Disk,
    world: Source,
    first: Seq<ActionView>,
    second: Seq<ActionView>,
)
    ensures
        perform_all(disk, world, first + second) == perform_all(
            perform_all(disk, world, first),
            world,
            second,
        ),
    decreases second.len(),
{
    if second.len() == 0 {
        assert(first + second =~= first);
    } else {
        perform_all_splits(disk, world, first, second.drop_last());
        assert((first + second).drop_last() =~= first + second.drop_last());
        assert((first + second).last() == second.last());
    }
}

/// A truthful caller that has seen a run over `tree` through has carried
/// out the script, and nothing after it.
pub proof fn complete_run_performs_script(
    world: Source,
    tree: Seq<Member>,
    source: Seq<char>,
    destination: Seq<char>,
    before: Disk,
    rounds: nat,
)
    requires
        holds_tree(world, tree, source),
        rounds >= script(tree, source, destination).len(),
    ensures
        outcome(world, source, destination, before, rounds) == perform_all(
            before,
            world,
            script(tree, source, destination),
        ),
    decreases rounds,
{
    let whole = script(tree, source, destination);
    let named = issued(world, source, destination, rounds);
    if rounds == whole.len() {
        assert forall|k: int| 0 <= k < rounds implies named[k] == whole[k] by {
            run_follows_script(world, tree, source, destination, k as nat);
        }
        assert(named =~= whole);
    } else {
        complete_run_performs_script(
            world,
            tree,
            source,
            destination,
            before,
            (rounds - 1) as nat,
        );
        run_follows_script(world, tree, source, destination, (rounds - 1) as nat);
        assert(named.drop_last() =~= issued(world, source, destination, (rounds - 1) as nat));
        assert(named.last() == ActionView::Finish);
    }
}

/// Missing source: where the source directory cannot be listed, the run
/// writes nothing, however long the caller goes on: the destination stays
/// as it was.
pub proof fn missing_source_writes_nothing(
    world: Source,
    source: Seq<char>,
    destination: Seq<char>,
    before: Disk,
    rounds: nat,
)
    requires
        !world.dirs.contains_key(source),
    ensures
        outcome(world, source, destination, before, rounds) == before,
    decreases rounds,
{
    if rounds > 0 {
        let named = issued(world, source, destination, rounds);
        missing_source_writes_nothing(world, source, destination, before, (rounds - 1) as nat);
        missing_source_fails(world, source, destination, (rounds - 1) as nat);
        assert(named.drop_last() =~= issued(world, source, destination, (rounds - 1) as nat));
        assert(named.last() is List || named.last() is Abort);
    }
}

/// The members are plainly named, no two of one directory alike, all the
/// way down: as the entries of directories on a disk are.
pub open spec fn well_named(members: Seq<Member>) -> bool
    decreases members,
{
    &&& forall|i: int| 0 <= i < members.len() ==> well_named_member(#[trigger] members[i])
    &&& forall|i: int, j: int|
        0 <= i < j < members.len() ==> (#[trigger] members[i]).name != (#[trigger] members[j]).name
}

/// The member is plainly named, and what it holds is well named.
pub open spec fn well_named_member(member: Member) -> bool
    decreases member,
{
    plain_name(member.name) && match member.node {
        Node::Directory(inner) => well_named(inner),
        _ => true,
    }
}

/// The destination has, in the directory `path`, every file and directory
/// among the members: each file with its bytes, each directory with its
/// own members in turn.
pub open spec fn shows_tree(disk: Disk, members: Seq<Member>, path: Seq<char>) -> bool
    decreases members,
{
    forall|i: int| 0 <= i < members.len() ==> shows_member(disk, #[trigger] members[i], path)
}

/// The destination has this member in the directory `path`.
pub open spec fn shows_member(disk: Disk, member: Member, path: Seq<char>) -> bool
    decreases member,
{
    let to = joined(path, member.name);
    match member.node {
        Node::File(content) => disk.contains_key(to) && disk[to] == Object::File(content),
        Node::Directory(inner) => disk.contains_key(to) && disk[to] == Object::Directory
            && shows_tree(disk, inner, to),
        Node::Other => true,
    }
}

/// `key` is the path at which some file or directory among the members is
/// mirrored, the directory `path` being the mirror of their parent.
pub open spec fn in_footprint(members: Seq<Member>, path: Seq<char>, key: Seq<char>) -> bool
    decreases members,
{
    exists|i: int| 0 <= i < members.len() && in_footprint_of(#[trigger] members[i], path, key)
}

/// `key` is the path at which the member, or something that it holds, is
/// mirrored.
pub open spec fn in_footprint_of(member: Member, path: Seq<char>, key: Seq<char>) -> bool
    decreases member,
{
    let to = joined(path, member.name);
    match member.node {
        Node::File(_) => key == to,
        Node::Directory(inner) => key == to || in_footprint(inner, to, key),
        Node::Other => false,
    }
}

/// The two destinations have the same at `key`.
pub open spec fn same_at(one: Disk, other: Disk, key: Seq<char>) -> bool {
    one.contains_key(key) == other.contains_key(key) && one[key] == other[key]
}

/// Every member of the directory at `path` is in the world, all the way
/// down.
spec fn holds_members(world: Source, members: Seq<Member>, path: Seq<char>) -> bool {
    forall|i: int| 0 <= i < members.len() ==> holds_member(world, #[trigger] members[i], path)
}

/// What a member is mirrored at sits under the member's own mirror path.
proof fn footprint_sits_under(member: Member, path: Seq<char>, key: Seq<char>)
    requires
        well_named_member(member),
        in_footprint_of(member, path, key),
    ensures
        sits_under(key, joined(path, member.name)),
    decreases member,
{
    let to = joined(path, member.name);
    joined_is_longer(path, member.name);
    if key == to {
        assert(key.take(to.len() as int) =~= to);
    } else {
        let inner = member.node->Directory_0;
        let k = choose|k: int|
            0 <= k < inner.len() && in_footprint_of(#[trigger] inner[k], to, key);
        footprint_sits_under(inner[k], to, key);
        under_entry_is_under_dir(key, to, inner[k].name);
    }
}

/// What the members of a directory are mirrored at is longer than the path
/// of the directory's mirror.
proof fn footprint_is_below(members: Seq<Member>, path: Seq<char>, key: Seq<char>)
    requires
        well_named(members),
        in_footprint(members, path, key),
    ensures
        key.len() > path.len(),
{
    let k = choose|k: int|
        0 <= k < members.len() && in_footprint_of(#[trigger] members[k], path, key);
    footprint_sits_under(members[k], path, key);
    joined_is_longer(path, members[k].name);
}

/// Two members of one directory are mirrored at different paths.
proof fn members_are_apart(members: Seq<Member>, path: Seq<char>, i: int, j: int, key: Seq<char>)
    requires
        well_named(members),
        0 <= i < members.len(),
        0 <= j < members.len(),
        i != j,
        in_footprint_of(members[i], path, key),
    ensures
        !in_footprint_of(members[j], path, key),
{
    if in_footprint_of(members[j], path, key) {
        footprint_sits_under(members[i], path, key);
        footprint_sits_under(members[j], path, key);
        if i < j {
            assert(members[i].name != members[j].name);
        } else {
            assert(members[j].name != members[i].name);
        }
        siblings_are_apart(key, path, members[i].name, members[j].name);
    }
}

/// Without their first, well named members are still well named.
proof fn rest_is_well_named(members: Seq<Member>)
    requires
        well_named(members),
        members.len() > 0,
    ensures
        well_named(members.drop_first()),
{
    let rest = members.drop_first();
    assert forall|i: int| 0 <= i < rest.len() implies well_named_member(#[trigger] rest[i]) by {
        assert(rest[i] == members[i + 1]);
    }
    assert forall|i: int, j: int| 0 <= i < j < rest.len() implies (#[trigger] rest[i]).name != (
    #[trigger] rest[j]).name by {
        assert(rest[i] == members[i + 1]);
        assert(rest[j] == members[j + 1]);
    }
}

/// A destination that shows a member still shows it after changes that
/// stay clear of where the member is mirrored.
proof fn shows_member_carries(one: Disk, other: Disk, member: Member, path: Seq<char>)
    requires
        shows_member(one, member, path),
        forall|key: Seq<char>|
            in_footprint_of(member, path, key) ==> #[trigger] same_at(one, other, key),
    ensures
        shows_member(other, member, path),
    decreases member,
{
    let to = joined(path, member.name);
    match member.node {
        Node::File(_) => {
            assert(same_at(one, other, to));
        },
        Node::Directory(inner) => {
            assert(same_at(one, other, to));
            assert forall|i: int| 0 <= i < inner.len() implies shows_member(
                other,
                #[trigger] inner[i],
                to,
            ) by {
                assert forall|key: Seq<char>|
                    in_footprint_of(inner[i], to, key) implies #[trigger] same_at(
                    one,
                    other,
                    key,
                ) by {
                    assert(in_footprint(inner, to, key));
                }
                shows_member_carries(one, other, inner[i], to);
            }
        },
        Node::Other => {},
    }
}

/// Carrying out a single action is performing it.
proof fn perform_all_of_one(disk: Disk, world: Source, action: ActionView)
    ensures
        perform_all(disk, world, seq![action]) == perform(disk, world, action),
{
    assert(seq![action].drop_last() =~= Seq::<ActionView>::empty());
    assert(perform_all(disk, world, seq![action].drop_last()) == disk);
}

/// Walking the members of a directory leaves each of them mirrored and
/// changes nothing but where they are mirrored.
proof fn walk_mirrors(
    world: Source,
    members: Seq<Member>,
    source: Seq<char>,
    destination: Seq<char>,
    disk: Disk,
)
    requires
        holds_members(world, members, source),
        well_named(members),
    ensures
        shows_tree(
            perform_all(disk, world, walk(members, source, destination)),
            members,
            destination,
        ),
        forall|key: Seq<char>|
            !in_footprint(members, destination, key) ==> #[trigger] same_at(
                perform_all(disk, world, walk(members, source, destination)),
                disk,
                key,
            ),
    decreases members,
{
    if members.len() > 0 {
        let head = members[0];
        let rest = members.drop_first();
        let mid = perform_all(disk, world, visit(head, source, destination));
        let after = perform_all(mid, world, walk(rest, source, destination));
        visit_mirrors(world, head, source, destination, disk);
        assert forall|i: int| 0 <= i < rest.len() implies holds_member(
            world,
            #[trigger] rest[i],
            source,
        ) by {
            assert(rest[i] == members[i + 1]);
        }
        rest_is_well_named(members);
        walk_mirrors(world, rest, source, destination, mid);
        perform_all_splits(
            disk,
            world,
            visit(head, source, destination),
            walk(rest, source, destination),
        );
        assert forall|key: Seq<char>|
            in_footprint_of(head, destination, key) implies #[trigger] same_at(
            mid,
            after,
            key,
        ) by {
            if in_footprint(rest, destination, key) {
                let k = choose|k: int|
                    0 <= k < rest.len() && in_footprint_of(#[trigger] rest[k], destination, key);
                assert(rest[k] == members[k + 1]);
                members_are_apart(members, destination, 0, k + 1, key);
            }
            assert(same_at(after, mid, key));
        }
        shows_member_carries(mid, after, head, destination);
        assert forall|i: int| 0 <= i < members.len() implies shows_member(
            after,
            #[trigger] members[i],
            destination,
        ) by {
            if i > 0 {
                assert(members[i] == rest[i - 1]);
            }
        }
        assert forall|key: Seq<char>|
            !in_footprint(members, destination, key) implies #[trigger] same_at(
            after,
            disk,
            key,
        ) by {
            assert(!in_footprint_of(members[0], destination, key));
            if in_footprint(rest, destination, key) {
                let k = choose|k: int|
                    0 <= k < rest.len() && in_footprint_of(#[trigger] rest[k], destination, key);
                assert(rest[k] == members[k + 1]);
            }
            assert(same_at(after, mid, key));
            assert(same_at(mid, disk, key));
        }
    }
}

/// Visiting a member leaves it mirrored and changes nothing but where it
/// is mirrored.
proof fn visit_mirrors(
    world: Source,
    member: Member,
    source: Seq<char>,
    destination: Seq<char>,
    disk: Disk,
)
    requires
        holds_member(world, member, source),
        well_named_member(member),
    ensures
        shows_member(
            perform_all(disk, world, visit(member, source, destination)),
            member,
            destination,
        ),
        forall|key: Seq<char>|
            !in_footprint_of(member, destination, key) ==> #[trigger] same_at(
                perform_all(disk, world, visit(member, source, destination)),
                disk,
                key,
            ),
    decreases member,
{
    let from = joined(source, member.name);
    let to = joined(destination, member.name);
    match member.node {
        Node::File(content) => {
            perform_all_of_one(disk, world, ActionView::Copy { from, to });
        },
        Node::Directory(inner) => {
            let make = ActionView::Ensure { path: to };
            let list = ActionView::List { path: from };
            let made = disk.insert(to, Object::Directory);
            let after = perform_all(made, world, walk(inner, from, to));
            assert(perform_all(disk, world, seq![make, list]) == made) by {
                assert(seq![make, list].drop_last() =~= seq![make]);
                perform_all_of_one(disk, world, make);
            }
            perform_all_splits(disk, world, seq![make, list], walk(inner, from, to));
            walk_mirrors(world, inner, from, to, made);
            if in_footprint(inner, to, to) {
                footprint_is_below(inner, to, to);
            }
            assert(same_at(after, made, to));
            assert forall|key: Seq<char>|
                !in_footprint_of(member, destination, key) implies #[trigger] same_at(
                after,
                disk,
                key,
            ) by {
                assert(same_at(after, made, key));
            }
        },
        Node::Other => {},
    }
}

/// Carrying out the script of a well named source tree leaves the
/// destination a directory that holds every file of the tree with its
/// bytes and every directory of the tree, each at the path that mirrors
/// its own, and changes nothing else.
pub proof fn script_mirrors(
    world: Source,
    tree: Seq<Member>,
    source: Seq<char>,
    destination: Seq<char>,
    before: Disk,
)
    requires
        holds_tree(world, tree, source),
        well_named(tree),
    ensures
        perform_all(before, world, script(tree, source, destination)).contains_key(destination),
        perform_all(before, world, script(tree, source, destination))[destination]
            == Object::Directory,
        shows_tree(
            perform_all(before, world, script(tree, source, destination)),
            tree,
            destination,
        ),
        forall|key: Seq<char>|
            key != destination && !in_footprint(tree, destination, key) ==> #[trigger] same_at(
                perform_all(before, world, script(tree, source, destination)),
                before,
                key,
            ),
{
    let list = ActionView::List { path: source };
    let make = ActionView::Ensure { path: destination };
    let made = before.insert(destination, Object::Directory);
    let after = perform_all(made, world, walk(tree, source, destination));
    assert(perform_all(before, world, seq![list, make]) == made) by {
        assert(seq![list, make].drop_last() =~= seq![list]);
        perform_all_of_one(before, world, list);
    }
    perform_all_splits(before, world, seq![list, make], walk(tree, source, destination));
    walk_mirrors(world, tree, source, destination, made);
    if in_footprint(tree, destination, destination) {
        footprint_is_below(tree, destination, destination);
    }
    assert(same_at(after, made, destination));
    assert forall|key: Seq<char>|
        key != destination && !in_footprint(tree, destination, key) implies #[trigger] same_at(
        after,
        before,
        key,
    ) by {
        assert(same_at(after, made, key));
    }
}

/// Mirror correctness: after a complete run over a well named source tree
/// the destination is a directory that holds every file of the tree with
/// its bytes and every directory of the tree, each at the path that mirrors
/// its own; and nothing else in the destination has changed.
pub proof fn mirror_is_exact(
    world: Source,
    tree: Seq<Member>,
    source: Seq<char>,
    destination: Seq<char>,
    before: Disk,
    rounds: nat,
)
    requires
        holds_tree(world, tree, source),
        well_named(tree),
        rounds >= script(tree, source, destination).len(),
    ensures
        outcome(world, source, destination, before, rounds).contains_key(destination),
        outcome(world, source, destination, before, rounds)[destination] == Object::Directory,
        shows_tree(outcome(world, source, destination, before, rounds), tree, destination),
        forall|key: Seq<char>|
            key != destination && !in_footprint(tree, destination, key) ==> #[trigger] same_at(
                outcome(world, source, destination, before, rounds),
                before,
                key,
            ),
{
    complete_run_performs_script(world, tree, source, destination, before, rounds);
    script_mirrors(world, tree, source, destination, before);
}

/// The kind of what is at a path of the destination.
pub open spec fn object_kind(object: Object) -> EntryKind {
    match object {
        Object::File(_) => EntryKind::File,
        Object::Directory => EntryKind::Directory,
    }
}

/// The paths of the destination that hold something of the given kind.
pub open spec fn paths_of(disk: Disk, kind: EntryKind) -> Set<Seq<char>> {
    Set::new(|key: Seq<char>| disk.contains_key(key) && object_kind(disk[key]) == kind)
}

/// How many files (or how many directories) the members hold, all the way
/// down.
pub open spec fn count(members: Seq<Member>, kind: EntryKind) -> nat
    decreases members,
{
    if members.len() == 0 {
        0
    } else {
        member_count(members[0], kind) + count(members.drop_first(), kind)
    }
}

/// How many files (or how many directories) the member is and holds.
pub open spec fn member_count(member: Member, kind: EntryKind) -> nat
    decreases member,
{
    match member.node {
        Node::File(_) => if kind == EntryKind::File {
            1
        } else {
            0
        },
        Node::Directory(inner) => if kind == EntryKind::Directory {
            1 + count(inner, kind)
        } else {
            count(inner, kind)
        },
        Node::Other => 0,
    }
}

/// `key` is the path at which something of the given kind among the
/// members is mirrored.
spec fn mirrored_at(members: Seq<Member>, path: Seq<char>, key: Seq<char>, kind: EntryKind) -> bool
    decreases members,
{
    exists|i: int|
        0 <= i < members.len() && member_mirrored_at(#[trigger] members[i], path, key, kind)
}

/// `key` is the path at which the member, being of the given kind, or
/// something of that kind that it holds, is mirrored.
spec fn member_mirrored_at(member: Member, path: Seq<char>, key: Seq<char>, kind: EntryKind) -> bool
    decreases member,
{
    let to = joined(path, member.name);
    match member.node {
        Node::File(_) => kind == EntryKind::File && key == to,
        Node::Directory(inner) => (kind == EntryKind::Directory && key == to) || mirrored_at(
            inner,
            to,
            key,
            kind,
        ),
        Node::Other => false,
    }
}

/// The paths at which the members' files (or directories) are mirrored.
spec fn places(members: Seq<Member>, path: Seq<char>, kind: EntryKind) -> Set<Seq<char>> {
    Set::new(|key: Seq<char>| mirrored_at(members, path, key, kind))
}

/// The paths at which the member's files (or directories) are mirrored.
spec fn member_places(member: Member, path: Seq<char>, kind: EntryKind) -> Set<Seq<char>> {
    Set::new(|key: Seq<char>| member_mirrored_at(member, path, key, kind))
}

/// Where something of a member is mirrored is in the member's footprint.
proof fn mirrored_is_in_footprint(member: Member, path: Seq<char>, key: Seq<char>, kind: EntryKind)
    requires
        member_mirrored_at(member, path, key, kind),
    ensures
        in_footprint_of(member, path, key),
    decreases member,
{
    let to = joined(path, member.name);
    if let Node::Directory(inner) = member.node {
        if key != to {
            let k = choose|k: int|
                0 <= k < inner.len() && member_mirrored_at(#[trigger] inner[k], to, key, kind);
            mirrored_is_in_footprint(inner[k], to, key, kind);
        }
    }
}

/// What is in a member's footprint is where a file or a directory of the
/// member is mirrored.
proof fn footprint_is_mirrored(member: Member, path: Seq<char>, key: Seq<char>)
    requires
        in_footprint_of(member, path, key),
    ensures
        member_mirrored_at(member, path, key, EntryKind::File) || member_mirrored_at(
            member,
            path,
            key,
            EntryKind::Directory,
        ),
    decreases member,
{
    let to = joined(path, member.name);
    if let Node::Directory(inner) = member.node {
        if key != to {
            let k = choose|k: int|
                0 <= k < inner.len() && in_footprint_of(#[trigger] inner[k], to, key);
            footprint_is_mirrored(inner[k], to, key);
        }
    }
}

/// A destination that shows a member has, wherever something of the member
/// is mirrored, a thing of that kind.
proof fn shown_has_kind(
    disk: Disk,
    member: Member,
    path: Seq<char>,
    key: Seq<char>,
    kind: EntryKind,
)
    requires
        shows_member(disk, member, path),
        member_mirrored_at(member, path, key, kind),
    ensures
        disk.contains_key(key),
        object_kind(disk[key]) == kind,
    decreases member,
{
    let to = joined(path, member.name);
    if let Node::Directory(inner) = member.node {
        if !(kind == EntryKind::Directory && key == to) {
            let k = choose|k: int|
                0 <= k < inner.len() && member_mirrored_at(#[trigger] inner[k], to, key, kind);
            shown_has_kind(disk, inner[k], to, key, kind);
        }
    }
}

/// The files (or directories) of well named members are mirrored at as
/// many paths as there are of them.
proof fn places_are_counted(members: Seq<Member>, path: Seq<char>, kind: EntryKind)
    requires
        well_named(members),
    ensures
        places(members, path, kind).finite(),
        places(members, path, kind).len() == count(members, kind),
    decreases members,
{
    if members.len() == 0 {
        assert(places(members, path, kind) =~= Set::<Seq<char>>::empty());
    } else {
        let head = members[0];
        let rest = members.drop_first();
        let first = member_places(head, path, kind);
        let others = places(rest, path, kind);
        rest_is_well_named(members);
        member_places_are_counted(head, path, kind);
        places_are_counted(rest, path, kind);
        assert forall|key: Seq<char>| others.contains(key) implies mirrored_at(
            members,
            path,
            key,
            kind,
        ) && !first.contains(key) by {
            let k = choose|k: int|
                0 <= k < rest.len() && member_mirrored_at(#[trigger] rest[k], path, key, kind);
            assert(rest[k] == members[k + 1]);
            mirrored_is_in_footprint(members[k + 1], path, key, kind);
            if first.contains(key) {
                mirrored_is_in_footprint(head, path, key, kind);
                members_are_apart(members, path, 0, k + 1, key);
            }
        }
        assert forall|key: Seq<char>| mirrored_at(members, path, key, kind) implies first.contains(
            key,
        ) || others.contains(key) by {
            let k = choose|k: int|
                0 <= k < members.len() && member_mirrored_at(
                    #[trigger] members[k],
                    path,
                    key,
                    kind,
                );
            if k > 0 {
                assert(members[k] == rest[k - 1]);
            }
        }
        assert(places(members, path, kind) =~= first + others);
        assert(first.disjoint(others));
        lemma_set_disjoint_lens(first, others);
    }
}

/// The files (or directories) of a well named member are mirrored at as
/// many paths as there are of them.
proof fn member_places_are_counted(member: Member, path: Seq<char>, kind: EntryKind)
    requires
        well_named_member(member),
    ensures
        member_places(member, path, kind).finite(),
        member_places(member, path, kind).len() == member_count(member, kind),
    decreases member,
{
    let to = joined(path, member.name);
    let own = member_places(member, path, kind);
    match member.node {
        Node::File(_) => {
            if kind == EntryKind::File {
                assert(own =~= Set::<Seq<char>>::empty().insert(to));
            } else {
                assert(own =~= Set::<Seq<char>>::empty());
            }
        },
        Node::Directory(inner) => {
            let below = places(inner, to, kind);
            places_are_counted(inner, to, kind);
            if kind == EntryKind::Directory {
                if mirrored_at(inner, to, to, kind) {
                    let k = choose|k: int|
                        0 <= k < inner.len() && member_mirrored_at(
                            #[trigger] inner[k],
                            to,
                            to,
                            kind,
                        );
                    mirrored_is_in_footprint(inner[k], to, to, kind);
                    footprint_is_below(inner, to, to);
                }
                assert(own =~= below.insert(to));
            } else {
                assert(own =~= below);
            }
        },
        Node::Other => {
            assert(own =~= Set::<Seq<char>>::empty());
        },
    }
}

/// Mirror count: after a complete run over a well named source tree into a
/// destination that held nothing, the destination holds exactly as many
/// files as the tree has, and exactly one directory for each directory of
/// the tree besides the destination directory itself.
pub proof fn mirror_is_counted(
    world: Source,
    tree: Seq<Member>,
    source: Seq<char>,
    destination: Seq<char>,
    rounds: nat,
)
    requires
        holds_tree(world, tree, source),
        well_named(tree),
        rounds >= script(tree, source, destination).len(),
    ensures
        paths_of(
            outcome(world, source, destination, Map::empty(), rounds),
            EntryKind::File,
        ).finite(),
        paths_of(outcome(world, source, destination, Map::empty(), rounds), EntryKind::File).len()
            == count(tree, EntryKind::File),
        paths_of(
            outcome(world, source, destination, Map::empty(), rounds),
            EntryKind::Directory,
        ).finite(),
        paths_of(
            outcome(world, source, destination, Map::empty(), rounds),
            EntryKind::Directory,
        ).len() == count(tree, EntryKind::Directory) + 1,
{
    let nothing = Map::<Seq<char>, Object>::empty();
    let after = outcome(world, source, destination, nothing, rounds);
    let files = places(tree, destination, EntryKind::File);
    let directories = places(tree, destination, EntryKind::Directory);
    mirror_is_exact(world, tree, source, destination, nothing, rounds);
    places_are_counted(tree, destination, EntryKind::File);
    places_are_counted(tree, destination, EntryKind::Directory);
    assert forall|key: Seq<char>, kind: EntryKind| #[trigger]
        mirrored_at(tree, destination, key, kind) implies after.contains_key(key) && object_kind(
        after[key],
    ) == kind && key != destination by {
        let k = choose|k: int|
            0 <= k < tree.len() && member_mirrored_at(#[trigger] tree[k], destination, key, kind);
        shown_has_kind(after, tree[k], destination, key, kind);
        mirrored_is_in_footprint(tree[k], destination, key, kind);
        footprint_is_below(tree, destination, key);
    }
    assert forall|key: Seq<char>| #[trigger]
        after.contains_key(key) && key != destination implies mirrored_at(
        tree,
        destination,
        key,
        EntryKind::File,
    ) || mirrored_at(tree, destination, key, EntryKind::Directory) by {
        if !in_footprint(tree, destination, key) {
            assert(same_at(after, nothing, key));
        }
        let k = choose|k: int|
            0 <= k < tree.len() && in_footprint_of(#[trigger] tree[k], destination, key);
        footprint_is_mirrored(tree[k], destination, key);
    }
    assert(paths_of(after, EntryKind::File) =~= files);
    assert(paths_of(after, EntryKind::Directory) =~= directories.insert(destination));
}

} // verus!
