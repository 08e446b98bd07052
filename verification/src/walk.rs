//! What a walk finds when it is carried through to the end.
//!
//! The walk itself never reads the disk.  Here the disk is taken as given,
//! as the listing of each directory that can be read, and the walk is
//! followed round by round: each round reads the directory that the walk
//! asks for and hands the listing back.

use crate::path::{lemma_contains_of_concat, PathView};
use crate::snapshot::{
    directories_listed, lemma_listed_lie_within, lies_within, recorded, replays_listed, taken,
    walk_start, DirEntryView, WalkView,
};
use crate::watch::in_scope;
use vstd::prelude::*;

verus! {

/// What reading the disk gives: the names and kinds listed in each
/// directory that can be read.  A directory that is no key cannot be read.
pub type DiskView = Map<PathView, Seq<DirEntryView>>;

/// What reading `dir` gives; `None` where it cannot be read.
pub open spec fn read_dir(disk: DiskView, dir: PathView) -> Option<Seq<DirEntryView>> {
    if disk.dom().contains(dir) {
        Some(disk[dir])
    } else {
        None
    }
}

/// One round of the walk: the directory that is next is taken off, read,
/// and its listing taken in.  A walk with nothing left to read stays as it
/// is.
pub open spec fn walk_round(disk: DiskView, walk: WalkView) -> WalkView {
    if walk.pending.len() == 0 {
        walk
    } else {
        recorded(taken(walk), read_dir(disk, walk.pending.last()))
    }
}

/// The walk from `root` after so many rounds.
pub open spec fn walk_after(disk: DiskView, root: PathView, rounds: nat) -> WalkView
    decreases rounds,
{
    if rounds == 0 {
        walk_start(root)
    } else {
        walk_round(disk, walk_after(disk, root, (rounds - 1) as nat))
    }
}

/// The directories that the walk from `root` has read, or tried to read, in
/// so many rounds.
pub open spec fn visited_after(disk: DiskView, root: PathView, rounds: nat) -> Set<PathView>
    decreases rounds,
{
    if rounds == 0 {
        Set::empty()
    } else {
        let before = walk_after(disk, root, (rounds - 1) as nat);
        let visited = visited_after(disk, root, (rounds - 1) as nat);
        if before.pending.len() == 0 {
            visited
        } else {
            visited.insert(before.pending.last())
        }
    }
}

/// Whether the listing of `parent` can be read and names `dir` as a
/// directory.
pub open spec fn lists_directory(disk: DiskView, parent: PathView, dir: PathView) -> bool {
    disk.dom().contains(parent) && directories_listed(parent, disk[parent]).contains(dir)
}

/// Whether `dir` is reached from `root` in so many steps, each from a
/// directory that can be read to a directory that it lists.
pub open spec fn reached_in(disk: DiskView, root: PathView, dir: PathView, steps: nat) -> bool
    decreases steps,
{
    if steps == 0 {
        dir == root
    } else {
        exists|parent: PathView|
            reached_in(disk, root, parent, (steps - 1) as nat) && #[trigger] lists_directory(
                disk,
                parent,
                dir,
            )
    }
}

/// Whether `dir` is `root` or lies below it, through directories that can
/// be read.
pub open spec fn lies_below(disk: DiskView, root: PathView, dir: PathView) -> bool {
    exists|steps: nat| reached_in(disk, root, dir, steps)
}

/// Whether `path` is a replay file in the listing of `dir`.
pub open spec fn holds_replay(disk: DiskView, dir: PathView, path: PathView) -> bool {
    disk.dom().contains(dir) && replays_listed(dir, disk[dir]).contains(path)
}

/// The replay files in `root` and below it: those that are listed by a
/// directory that can be read and that is reached from `root` through
/// directories that can be read.
pub open spec fn replays_below(disk: DiskView, root: PathView) -> Set<PathView> {
    Set::new(
        |path: PathView|
            exists|dir: PathView| lies_below(disk, root, dir) && holds_replay(disk, dir, path),
    )
}

/// A directory that a reached directory lists is reached too.
proof fn lemma_listed_lies_below(disk: DiskView, root: PathView, parent: PathView, dir: PathView)
    requires
        lies_below(disk, root, parent),
        lists_directory(disk, parent, dir),
    ensures
        lies_below(disk, root, dir),
{
    let steps = choose|steps: nat| reached_in(disk, root, parent, steps);
    let more: nat = steps + 1;
    assert(reached_in(disk, root, parent, (more - 1) as nat));
    assert(reached_in(disk, root, dir, more));
}

/// What holds of the walk after every round.  No listing is awaited;
/// whatever it has read or has still to read lies below the root; the
/// root is among these; what a directory that has been read lists as a
/// directory has been read or is still to be read; and what has been found
/// is what the directories that have been read hold.
proof fn lemma_walk_in_order(disk: DiskView, root: PathView, rounds: nat)
    ensures
        walk_after(disk, root, rounds).root == root,
        walk_after(disk, root, rounds).reading is None,
        forall|dir: PathView|
            visited_after(disk, root, rounds).contains(dir) || walk_after(
                disk,
                root,
                rounds,
            ).pending.contains(dir) ==> lies_below(disk, root, dir),
        visited_after(disk, root, rounds).contains(root) || walk_after(
            disk,
            root,
            rounds,
        ).pending.contains(root),
        forall|parent: PathView, dir: PathView|
            visited_after(disk, root, rounds).contains(parent) && #[trigger] lists_directory(
                disk,
                parent,
                dir,
            ) ==> visited_after(disk, root, rounds).contains(dir) || walk_after(
                disk,
                root,
                rounds,
            ).pending.contains(dir),
        forall|path: PathView|
            walk_after(disk, root, rounds).found.contains(path) <==> exists|dir: PathView|
                visited_after(disk, root, rounds).contains(dir) && #[trigger] holds_replay(
                    disk,
                    dir,
                    path,
                ),
    decreases rounds,
{
    let walk = walk_after(disk, root, rounds);
    let visited = visited_after(disk, root, rounds);
    if rounds == 0 {
        assert(walk.pending[0] == root);
        assert(reached_in(disk, root, root, 0));
        assert forall|dir: PathView| walk.pending.contains(dir) implies lies_below(
            disk,
            root,
            dir,
        ) by {
            let i = choose|i: int| 0 <= i < walk.pending.len() && walk.pending[i] == dir;
            assert(dir == root);
        }
    } else {
        let before = walk_after(disk, root, (rounds - 1) as nat);
        let seen = visited_after(disk, root, (rounds - 1) as nat);
        lemma_walk_in_order(disk, root, (rounds - 1) as nat);
        if before.pending.len() > 0 {
            let next = before.pending.last();
            let rest = before.pending.drop_last();
            let listed = match read_dir(disk, next) {
                Some(entries) => directories_listed(next, entries),
                None => Seq::empty(),
            };
            assert(walk.pending =~= rest + listed);
            assert(before.pending[before.pending.len() - 1] == next);
            assert(before.pending.contains(next));
            // A directory that was to be read is the one read now, or is
            // still to be read.
            assert forall|dir: PathView| before.pending.contains(dir) implies dir == next
                || walk.pending.contains(dir) by {
                let i = choose|i: int| 0 <= i < before.pending.len() && before.pending[i] == dir;
                if i < rest.len() {
                    assert(rest[i] == dir);
                    lemma_contains_of_concat(rest, listed, dir);
                }
            }
            assert forall|dir: PathView| walk.pending.contains(dir) implies before.pending.contains(
                dir,
            ) || lists_directory(disk, next, dir) by {
                lemma_contains_of_concat(rest, listed, dir);
                if rest.contains(dir) {
                    let i = choose|i: int| 0 <= i < rest.len() && rest[i] == dir;
                    assert(before.pending[i] == dir);
                }
            }
            assert forall|dir: PathView|
                visited.contains(dir) || walk.pending.contains(dir) implies lies_below(
                disk,
                root,
                dir,
            ) by {
                if !seen.contains(dir) && !before.pending.contains(dir) {
                    lemma_listed_lies_below(disk, root, next, dir);
                }
            }
            assert forall|parent: PathView, dir: PathView|
                visited.contains(parent) && #[trigger] lists_directory(
                    disk,
                    parent,
                    dir,
                ) implies visited.contains(dir) || walk.pending.contains(dir) by {
                if parent == next {
                    lemma_contains_of_concat(rest, listed, dir);
                }
            }
            assert forall|path: PathView| walk.found.contains(path) <==> exists|dir: PathView|
                visited.contains(dir) && #[trigger] holds_replay(disk, dir, path) by {
                if before.found.contains(path) {
                    let dir = choose|dir: PathView|
                        seen.contains(dir) && #[trigger] holds_replay(disk, dir, path);
                    assert(visited.contains(dir) && holds_replay(disk, dir, path));
                }
                if walk.found.contains(path) && !before.found.contains(path) {
                    assert(visited.contains(next) && holds_replay(disk, next, path));
                }
                if exists|dir: PathView|
                    visited.contains(dir) && #[trigger] holds_replay(disk, dir, path) {
                    let dir = choose|dir: PathView|
                        visited.contains(dir) && #[trigger] holds_replay(disk, dir, path);
                    if dir != next {
                        assert(seen.contains(dir) && holds_replay(disk, dir, path));
                    }
                }
            }
        }
    }
}

/// Once nothing is left to read, whatever lies below the root has been
/// read.
proof fn lemma_complete_walk_has_read_all(
    disk: DiskView,
    root: PathView,
    rounds: nat,
    dir: PathView,
    steps: nat,
)
    requires
        walk_after(disk, root, rounds).pending.len() == 0,
        reached_in(disk, root, dir, steps),
    ensures
        visited_after(disk, root, rounds).contains(dir),
    decreases steps,
{
    lemma_walk_in_order(disk, root, rounds);
    let walk = walk_after(disk, root, rounds);
    assert(forall|d: PathView| !walk.pending.contains(d));
    if steps > 0 {
        let parent = choose|parent: PathView|
            reached_in(disk, root, parent, (steps - 1) as nat) && #[trigger] lists_directory(
                disk,
                parent,
                dir,
            );
        lemma_complete_walk_has_read_all(disk, root, rounds, parent, (steps - 1) as nat);
    }
}

/// Whatever a walk has found, at any point, is a replay file in the root
/// or below it.
pub proof fn lemma_walk_finds_only_replays_below(disk: DiskView, root: PathView, rounds: nat)
    ensures
        walk_after(disk, root, rounds).found.subset_of(replays_below(disk, root)),
{
    lemma_walk_in_order(disk, root, rounds);
    let walk = walk_after(disk, root, rounds);
    let visited = visited_after(disk, root, rounds);
    assert forall|path: PathView| walk.found.contains(path) implies replays_below(
        disk,
        root,
    ).contains(path) by {
        let dir = choose|dir: PathView|
            visited.contains(dir) && #[trigger] holds_replay(disk, dir, path);
        assert(lies_below(disk, root, dir) && holds_replay(disk, dir, path));
    }
}

/// A walk that has been carried through to the end has found every replay
/// file in the root and below it, and nothing else: each regular file with
/// the replay extension that some directory lists which can be read and is
/// reached through directories that can be read.
pub proof fn lemma_complete_walk_finds_every_replay(disk: DiskView, root: PathView, rounds: nat)
    requires
        walk_after(disk, root, rounds).pending.len() == 0,
    ensures
        walk_after(disk, root, rounds).found == replays_below(disk, root),
{
    lemma_walk_in_order(disk, root, rounds);
    lemma_walk_finds_only_replays_below(disk, root, rounds);
    let walk = walk_after(disk, root, rounds);
    let visited = visited_after(disk, root, rounds);
    assert forall|path: PathView| replays_below(disk, root).contains(path) implies walk.found.contains(
        path,
    ) by {
        let dir = choose|dir: PathView|
            lies_below(disk, root, dir) && holds_replay(disk, dir, path);
        let steps = choose|steps: nat| reached_in(disk, root, dir, steps);
        lemma_complete_walk_has_read_all(disk, root, rounds, dir, steps);
        assert(visited.contains(dir) && holds_replay(disk, dir, path));
    }
    assert(walk.found =~= replays_below(disk, root));
}

/// Whatever a walk has found or has still to read, at any point, lies in
/// the root or below it; so every path of a snapshot lies within the scope
/// of a watch on its root.
pub proof fn lemma_walk_stays_within_root(disk: DiskView, root: PathView, rounds: nat)
    ensures
        lies_within(walk_after(disk, root, rounds)),
        forall|path: PathView| #[trigger]
            walk_after(disk, root, rounds).found.contains(path) ==> in_scope(Some(root), path),
    decreases rounds,
{
    let walk = walk_after(disk, root, rounds);
    if rounds == 0 {
        assert(walk.pending[0] == root);
    } else {
        let before = walk_after(disk, root, (rounds - 1) as nat);
        lemma_walk_stays_within_root(disk, root, (rounds - 1) as nat);
        lemma_walk_in_order(disk, root, (rounds - 1) as nat);
        if before.pending.len() > 0 {
            let next = before.pending.last();
            let rest = before.pending.drop_last();
            assert(root.is_prefix_of(before.pending[before.pending.len() - 1]));
            match read_dir(disk, next) {
                Some(entries) => {
                    let listed = directories_listed(next, entries);
                    lemma_listed_lie_within(root, next, entries);
                    assert(walk.pending =~= rest + listed);
                    assert forall|i: int| 0 <= i < walk.pending.len() implies root.is_prefix_of(
                        #[trigger] walk.pending[i],
                    ) by {
                        if i < rest.len() {
                            assert(walk.pending[i] == before.pending[i]);
                        } else {
                            assert(walk.pending[i] == listed[i - rest.len()]);
                        }
                    }
                },
                None => {
                    assert(walk.pending =~= rest);
                    assert forall|i: int| 0 <= i < walk.pending.len() implies root.is_prefix_of(
                        #[trigger] walk.pending[i],
                    ) by {
                        assert(walk.pending[i] == before.pending[i]);
                    }
                },
            }
        }
    }
}

} // verus!
