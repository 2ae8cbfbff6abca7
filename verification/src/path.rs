//! Paths as plain strings: joining a directory with an entry name, and the
//! lexical test for one path lying at or below another.

use vstd::prelude::*;

verus! {

/// The path of the entry `name` in the directory `dir`: the two joined by
/// one `/`, which is left out where `dir` is empty or already ends in one.
pub open spec fn joined(dir: Seq<char>, name: Seq<char>) -> Seq<char> {
    if dir.len() == 0 || dir.last() == '/' {
        dir + name
    } else {
        dir + seq!['/'] + name
    }
}

/// The characters of `text`, in order.
pub fn chars_of(text: &str) -> (out: Vec<char>)
    ensures
        out@ == text@,
{
    let mut out: Vec<char> = Vec::new();
    for c in it: text.chars()
        invariant
            out@ == it.seq().take(it.index() as int),
            it.seq() == text@,
    {
        out.push(c);
    }
    out
}

/// Joins a directory path and an entry name.
pub fn join(dir: &str, name: &str) -> (out: String)
    ensures
        out@ == joined(dir@, name@),
{
    let count = dir.unicode_len();
    let mut out = dir.to_owned();
    if count > 0 && dir.get_char(count - 1) != '/' {
        proof {
            reveal_strlit("/");
        }
        out.append("/");
        assert(out@ =~= dir@ + seq!['/']);
    }
    out.append(name);
    out
}

/// A name fit for a directory entry: not empty, and without a `/`.
pub open spec fn plain_name(name: Seq<char>) -> bool {
    name.len() > 0 && forall|i: int| 0 <= i < name.len() ==> name[i] != '/'
}

/// `key` is the path `stem` or continues it with a `/`.
pub open spec fn sits_under(key: Seq<char>, stem: Seq<char>) -> bool {
    &&& key.len() >= stem.len()
    &&& key.take(stem.len() as int) == stem
    &&& key.len() == stem.len() || key[stem.len() as int] == '/'
}

/// What `dir` contributes to the path of an entry in it.
pub open spec fn stem_of(dir: Seq<char>) -> Seq<char> {
    if dir.len() == 0 || dir.last() == '/' {
        dir
    } else {
        dir + seq!['/']
    }
}

/// The path of a plainly named entry is longer than that of its directory
/// and does not end in a `/`.
pub proof fn joined_is_longer(dir: Seq<char>, name: Seq<char>)
    requires
        plain_name(name),
    ensures
        joined(dir, name).len() > dir.len(),
        joined(dir, name).last() != '/',
        joined(dir, name) == stem_of(dir) + name,
{
    assert(joined(dir, name) =~= stem_of(dir) + name);
    assert(joined(dir, name).last() == name.last());
}

/// What sits under the path of an entry of a directory `dir` that itself
/// is the path of a plainly named entry, sits under `dir` and is longer.
pub proof fn under_entry_is_under_dir(key: Seq<char>, dir: Seq<char>, name: Seq<char>)
    requires
        dir.len() > 0,
        dir.last() != '/',
        sits_under(key, joined(dir, name)),
    ensures
        sits_under(key, dir),
        key.len() > dir.len(),
{
    let path = joined(dir, name);
    assert(path =~= dir + seq!['/'] + name);
    let cut = key.take(path.len() as int);
    assert(key.take(dir.len() as int) =~= dir) by {
        assert forall|i: int| 0 <= i < dir.len() implies key[i] == dir[i] by {
            assert(cut[i] == path[i]);
        }
    }
    assert(cut[dir.len() as int] == path[dir.len() as int]);
}

/// Nothing sits under the paths of two entries of one directory that have
/// different plain names.
pub proof fn siblings_are_apart(key: Seq<char>, dir: Seq<char>, one: Seq<char>, other: Seq<char>)
    requires
        plain_name(one),
        plain_name(other),
        one != other,
        sits_under(key, joined(dir, one)),
    ensures
        !sits_under(key, joined(dir, other)),
{
    if sits_under(key, joined(dir, other)) {
        let stem = stem_of(dir);
        let first = joined(dir, one);
        let second = joined(dir, other);
        joined_is_longer(dir, one);
        joined_is_longer(dir, other);
        let first_cut = key.take(first.len() as int);
        let second_cut = key.take(second.len() as int);
        if one.len() == other.len() {
            assert forall|i: int| 0 <= i < one.len() implies one[i] == other[i] by {
                assert(first[stem.len() + i] == one[i]);
                assert(second[stem.len() + i] == other[i]);
                assert(first_cut[stem.len() + i] == second_cut[stem.len() + i]);
            }
            assert(one =~= other);
        } else if one.len() < other.len() {
            assert(key[first.len() as int] == second_cut[first.len() as int]);
            assert(second[first.len() as int] == other[one.len() as int]);
        } else {
            assert(key[second.len() as int] == first_cut[second.len() as int]);
            assert(first[second.len() as int] == one[other.len() as int]);
        }
    }
}

/// The path starts at the root of the file system.
pub open spec fn is_absolute(path: Seq<char>) -> bool {
    path.len() > 0 && path[0] == '/'
}

/// The path read piece by piece: the non-empty pieces that a `/` has
/// closed, and the piece after the last `/`.
pub open spec fn pieces(path: Seq<char>) -> (Seq<Seq<char>>, Seq<char>)
    decreases path.len(),
{
    if path.len() == 0 {
        (Seq::empty(), Seq::empty())
    } else {
        let (closed, open) = pieces(path.drop_last());
        if path.last() != '/' {
            (closed, open.push(path.last()))
        } else if open.len() > 0 {
            (closed.push(open), Seq::empty())
        } else {
            (closed, open)
        }
    }
}

/// The names that the path is made of: its non-empty pieces between
/// separators, in order.
pub open spec fn components(path: Seq<char>) -> Seq<Seq<char>> {
    let (closed, open) = pieces(path);
    if open.len() > 0 {
        closed.push(open)
    } else {
        closed
    }
}

/// The name that stands for the directory itself.
pub open spec fn this_directory() -> Seq<char> {
    seq!['.']
}

/// The name that stands for the parent directory.
pub open spec fn parent_directory() -> Seq<char> {
    seq!['.', '.']
}

/// The way so far, continued by one more name: `.` stays where the way is;
/// `..` takes back the last name, stays at the root where the way starts
/// there and has no name left, and is kept where a way that does not start
/// at the root has no name to take back; any other name is added.
pub open spec fn continued(way: Seq<Seq<char>>, name: Seq<char>, rooted: bool) -> Seq<Seq<char>> {
    if name == this_directory() {
        way
    } else if name != parent_directory() {
        way.push(name)
    } else if way.len() > 0 && way.last() != parent_directory() {
        way.drop_last()
    } else if rooted {
        way
    } else {
        way.push(name)
    }
}

/// The way that the names lead, with `.` and `..` resolved by name.
pub open spec fn resolved(names: Seq<Seq<char>>, rooted: bool) -> Seq<Seq<char>>
    decreases names.len(),
{
    if names.len() == 0 {
        Seq::empty()
    } else {
        continued(resolved(names.drop_last(), rooted), names.last(), rooted)
    }
}

/// The way that the path leads: its names, with `.` and `..` resolved.
pub open spec fn way_of(path: Seq<char>) -> Seq<Seq<char>> {
    resolved(components(path), is_absolute(path))
}

/// `inner` is `outer` or lies below it, going by the names in the two
/// paths: both start at the root or neither does, and the way of `outer`
/// is the beginning of the way of `inner`. Links are not followed, and two
/// paths that do not start at the root are taken to start at the same
/// place; for paths from the root without links the test is exact.
pub open spec fn lies_within(inner: Seq<char>, outer: Seq<char>) -> bool {
    is_absolute(inner) == is_absolute(outer) && way_of(outer).is_prefix_of(way_of(inner))
}

/// The character sequences that the vectors hold.
pub open spec fn piece_views(pieces: Seq<Vec<char>>) -> Seq<Seq<char>> {
    pieces.map_values(|piece: Vec<char>| piece@)
}

/// Splits a path into its names.
pub fn split(path: &str) -> (out: Vec<Vec<char>>)
    ensures
        piece_views(out@) == components(path@),
{
    let chars = chars_of(path);
    let mut closed: Vec<Vec<char>> = Vec::new();
    let mut open: Vec<char> = Vec::new();
    let mut i: usize = 0;
    assert(piece_views(closed@) =~= Seq::<Seq<char>>::empty());
    assert(path@.take(0) =~= Seq::<char>::empty());
    while i < chars.len()
        invariant
            i <= chars.len(),
            chars@ == path@,
            (piece_views(closed@), open@) == pieces(path@.take(i as int)),
        decreases chars.len() - i,
    {
        let c = chars[i];
        let ghost before = piece_views(closed@);
        proof {
            assert(path@.take(i + 1).drop_last() =~= path@.take(i as int));
            assert(path@.take(i + 1).last() == c);
        }
        if c != '/' {
            open.push(c);
        } else if open.len() > 0 {
            let ghost piece = open@;
            closed.push(open);
            open = Vec::new();
            assert(piece_views(closed@) =~= before.push(piece));
            assert(open@ =~= Seq::<char>::empty());
        }
        i += 1;
    }
    assert(path@.take(i as int) =~= path@);
    if open.len() > 0 {
        let ghost before = piece_views(closed@);
        let ghost piece = open@;
        closed.push(open);
        assert(piece_views(closed@) =~= before.push(piece));
    }
    closed
}

/// Whether two vectors hold the same characters.
fn same_chars(one: &Vec<char>, other: &Vec<char>) -> (out: bool)
    ensures
        out == (one@ == other@),
{
    if one.len() != other.len() {
        return false;
    }
    let mut i: usize = 0;
    while i < one.len()
        invariant
            i <= one.len(),
            one.len() == other.len(),
            forall|k: int| 0 <= k < i ==> one@[k] == other@[k],
        decreases one.len() - i,
    {
        if one[i] != other[i] {
            return false;
        }
        i += 1;
    }
    assert(one@ =~= other@);
    true
}

/// Whether the path starts at the root of the file system.
pub fn starts_at_root(path: &str) -> (out: bool)
    ensures
        out == is_absolute(path@),
{
    path.unicode_len() > 0 && path.get_char(0) == '/'
}

/// Whether the name is `.`.
fn is_this_directory(name: &Vec<char>) -> (out: bool)
    ensures
        out == (name@ == this_directory()),
{
    let out = name.len() == 1 && name[0] == '.';
    assert(out ==> name@ =~= this_directory());
    assert(!out ==> name@.len() != 1 || name@[0] != this_directory()[0]);
    out
}

/// Whether the name is `..`.
fn is_parent_directory(name: &Vec<char>) -> (out: bool)
    ensures
        out == (name@ == parent_directory()),
{
    let out = name.len() == 2 && name[0] == '.' && name[1] == '.';
    assert(out ==> name@ =~= parent_directory());
    assert(!out ==> name@.len() != 2 || name@[0] != parent_directory()[0] || name@[1]
        != parent_directory()[1]);
    out
}

/// A copy of the characters.
fn copy_of(name: &Vec<char>) -> (out: Vec<char>)
    ensures
        out@ == name@,
{
    let mut out: Vec<char> = Vec::new();
    let mut i: usize = 0;
    while i < name.len()
        invariant
            i <= name.len(),
            out@ == name@.take(i as int),
        decreases name.len() - i,
    {
        out.push(name[i]);
        assert(name@.take(i + 1) =~= name@.take(i as int).push(name@[i as int]));
        i += 1;
    }
    assert(name@.take(i as int) =~= name@);
    out
}

/// Resolves `.` and `..` among the names of a path that starts at the root
/// (`rooted`) or does not.
pub fn resolve(names: &Vec<Vec<char>>, rooted: bool) -> (out: Vec<Vec<char>>)
    ensures
        piece_views(out@) == resolved(piece_views(names@), rooted),
{
    let ghost all = piece_views(names@);
    let mut way: Vec<Vec<char>> = Vec::new();
    let mut i: usize = 0;
    assert(piece_views(way@) =~= Seq::<Seq<char>>::empty());
    assert(all.take(0) =~= Seq::<Seq<char>>::empty());
    while i < names.len()
        invariant
            i <= names.len(),
            all == piece_views(names@),
            piece_views(way@) == resolved(all.take(i as int), rooted),
        decreases names.len() - i,
    {
        let name = &names[i];
        let ghost before = piece_views(way@);
        proof {
            assert(all.take(i + 1).drop_last() =~= all.take(i as int));
            assert(all.take(i + 1).last() == name@);
        }
        let back = is_parent_directory(name);
        let can_go_back = way.len() > 0 && !is_parent_directory(&way[way.len() - 1]);
        assert(way.len() > 0 ==> before.last() == way@[way.len() - 1]@);
        if back && can_go_back {
            way.pop();
            assert(piece_views(way@) =~= before.drop_last());
        } else if !is_this_directory(name) && !(back && rooted) {
            way.push(copy_of(name));
            assert(piece_views(way@) =~= before.push(name@));
        }
        i += 1;
    }
    assert(all.take(i as int) =~= all);
    way
}

/// Whether `inner` is `outer` or lies below it, going by the names in the
/// two paths.
pub fn is_within(inner: &str, outer: &str) -> (out: bool)
    ensures
        out == lies_within(inner@, outer@),
{
    let rooted = starts_at_root(inner);
    if rooted != starts_at_root(outer) {
        return false;
    }
    let long = resolve(&split(inner), rooted);
    let short = resolve(&split(outer), rooted);
    if short.len() > long.len() {
        return false;
    }
    let ghost wanted = way_of(outer@);
    let ghost given = way_of(inner@);
    let mut i: usize = 0;
    while i < short.len()
        invariant
            i <= short.len(),
            short.len() <= long.len(),
            is_absolute(inner@) == is_absolute(outer@),
            wanted == way_of(outer@),
            given == way_of(inner@),
            piece_views(short@) == wanted,
            piece_views(long@) == given,
            forall|k: int| 0 <= k < i ==> wanted[k] == given[k],
        decreases short.len() - i,
    {
        if !same_chars(&short[i], &long[i]) {
            assert(wanted[i as int] == short@[i as int]@);
            assert(given[i as int] == long@[i as int]@);
            assert(given.subrange(0, wanted.len() as int)[i as int] != wanted[i as int]);
            return false;
        }
        assert(wanted[i as int] == short@[i as int]@);
        assert(given[i as int] == long@[i as int]@);
        i += 1;
    }
    assert(wanted =~= given.subrange(0, wanted.len() as int));
    true
}

} // verus!
