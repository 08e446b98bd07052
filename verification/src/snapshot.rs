//! Taking stock of the replay files that already lie under a directory.
//!
//! The walk is driven from outside: the caller asks which directory to read
//! next, reads it, and hands back the names it found there.  What is decided
//! here is which entries are descended into and which are kept, and under
//! which path.

use crate::baseline::Baseline;
use crate::path::{is_replay_path, is_slp_file, Component, ComponentView, PathView, WatchPath};
use vstd::prelude::*;

verus! {

/// What a directory entry turned out to be when it was looked at.
#[derive(Clone, Copy, Debug, PartialEq, Eq, Structural)]
pub enum EntryKind {
    /// A directory, or a link that leads to one.
    Directory,
    /// A regular file.
    File,
    /// Anything else: a dangling link, a socket, a device.
    Other,
}

/// One entry of a directory listing.
#[derive(Debug)]
pub struct DirEntry {
    /// The entry's name within its directory.
    pub name: String,
    pub kind: EntryKind,
}

/// The mathematical value of a [`DirEntry`].
pub struct DirEntryView {
    pub name: Seq<char>,
    pub kind: EntryKind,
}

impl View for DirEntry {
    type V = DirEntryView;

    open spec fn view(&self) -> DirEntryView {
        DirEntryView { name: self.name@, kind: self.kind }
    }
}

/// The listing of a directory, entry by entry.
pub open spec fn listing_view(entries: Seq<DirEntry>) -> Seq<DirEntryView> {
    entries.map_values(|e: DirEntry| e@)
}

/// The path of an entry of `dir`: the path of `dir` and the entry's name.
pub open spec fn entry_path(dir: PathView, entry: DirEntryView) -> PathView {
    dir.push(ComponentView::Normal(entry.name))
}

/// Whether an entry is a directory to descend into.
pub open spec fn is_subdirectory(entry: DirEntryView) -> bool {
    entry.kind == EntryKind::Directory
}

/// Whether an entry of `dir` is a replay file to keep.
pub open spec fn is_replay_entry(dir: PathView, entry: DirEntryView) -> bool {
    entry.kind == EntryKind::File && is_replay_path(entry_path(dir, entry))
}

/// The directories that the listing of `dir` names, in its order.
pub open spec fn directories_listed(dir: PathView, entries: Seq<DirEntryView>) -> Seq<PathView> {
    entries.filter(|e: DirEntryView| is_subdirectory(e)).map_values(
        |e: DirEntryView| entry_path(dir, e),
    )
}

/// The replay files that the listing of `dir` names, in its order.
pub open spec fn replay_files_listed(dir: PathView, entries: Seq<DirEntryView>) -> Seq<PathView> {
    entries.filter(|e: DirEntryView| is_replay_entry(dir, e)).map_values(
        |e: DirEntryView| entry_path(dir, e),
    )
}

/// The replay files that the listing of `dir` names, as a set.
pub open spec fn replays_listed(dir: PathView, entries: Seq<DirEntryView>) -> Set<PathView> {
    replay_files_listed(dir, entries).to_set()
}

/// The mathematical value of a walk.
pub struct WalkView {
    /// The directory that the walk began with.
    pub root: PathView,
    /// The directories still to be read, the last one next.
    pub pending: Seq<PathView>,
    /// The directory that has been handed out and whose listing is awaited.
    pub reading: Option<PathView>,
    /// The replay files found so far.
    pub found: Set<PathView>,
}

/// A walk that has `root` to read and has found nothing yet.
pub open spec fn walk_start(root: PathView) -> WalkView {
    WalkView { root, pending: seq![root], reading: None, found: Set::empty() }
}

/// The walk after the directory that is next has been taken off it to be
/// read.  A listing that was still awaited is given up.
pub open spec fn taken(walk: WalkView) -> WalkView {
    if walk.pending.len() == 0 {
        WalkView { reading: None, ..walk }
    } else {
        WalkView {
            pending: walk.pending.drop_last(),
            reading: Some(walk.pending.last()),
            ..walk
        }
    }
}

/// The walk after it has taken in what reading the awaited directory gave:
/// the directories named are queued in their order and the replay files
/// kept, each under the path of the directory and its own name.  `None`
/// stands for a directory that could not be read, and changes nothing but
/// that its listing is awaited no longer.  A listing that no directory was
/// awaiting is dropped.
pub open spec fn recorded(walk: WalkView, listing: Option<Seq<DirEntryView>>) -> WalkView {
    match (walk.reading, listing) {
        (Some(dir), Some(entries)) => WalkView {
            pending: walk.pending + directories_listed(dir, entries),
            reading: None,
            found: walk.found.union(replays_listed(dir, entries)),
            ..walk
        },
        (Some(_), None) => WalkView { reading: None, ..walk },
        (None, _) => walk,
    }
}

/// What holds of every walk: whatever it has found, is reading or has
/// still to read lies in its root or below it.
pub open spec fn lies_within(walk: WalkView) -> bool {
    &&& forall|i: int|
        0 <= i < walk.pending.len() ==> walk.root.is_prefix_of(#[trigger] walk.pending[i])
    &&& walk.reading matches Some(dir) ==> walk.root.is_prefix_of(dir)
    &&& forall|path: PathView| #[trigger]
        walk.found.contains(path) ==> walk.root.is_prefix_of(path)
}

/// The view of a listing that may be missing.
pub open spec fn listing_of(listing: Option<Vec<DirEntry>>) -> Option<Seq<DirEntryView>> {
    match listing {
        Some(entries) => Some(listing_view(entries@)),
        None => None,
    }
}

/// What lies in a directory lies in every directory in which that one lies.
pub proof fn lemma_entry_lies_within(root: PathView, dir: PathView, entry: DirEntryView)
    requires
        root.is_prefix_of(dir),
    ensures
        root.is_prefix_of(entry_path(dir, entry)),
{
    assert(entry_path(dir, entry).subrange(0, root.len() as int) =~= dir.subrange(
        0,
        root.len() as int,
    ));
}

/// The paths that a listing of `dir` gives all lie in `dir`.
pub proof fn lemma_listed_lie_within(root: PathView, dir: PathView, entries: Seq<DirEntryView>)
    requires
        root.is_prefix_of(dir),
    ensures
        forall|i: int|
            0 <= i < directories_listed(dir, entries).len() ==> root.is_prefix_of(
                #[trigger] directories_listed(dir, entries)[i],
            ),
        forall|path: PathView| #[trigger]
            replays_listed(dir, entries).contains(path) ==> root.is_prefix_of(path),
{
    let dirs = entries.filter(|e: DirEntryView| is_subdirectory(e));
    let files = entries.filter(|e: DirEntryView| is_replay_entry(dir, e));
    assert forall|i: int| 0 <= i < directories_listed(dir, entries).len() implies root.is_prefix_of(
        #[trigger] directories_listed(dir, entries)[i],
    ) by {
        lemma_entry_lies_within(root, dir, dirs[i]);
    }
    assert forall|path: PathView| #[trigger]
        replays_listed(dir, entries).contains(path) implies root.is_prefix_of(path) by {
        let i = choose|i: int|
            0 <= i < replay_files_listed(dir, entries).len() && replay_files_listed(
                dir,
                entries,
            )[i] == path;
        lemma_entry_lies_within(root, dir, files[i]);
    }
}

/// A walk over a directory tree that is under way.
pub struct DirectorySnapshot {
    root: WatchPath,
    pending: Vec<WatchPath>,
    reading: Option<WatchPath>,
    found: Baseline,
}

impl View for DirectorySnapshot {
    type V = WalkView;

    closed spec fn view(&self) -> WalkView {
        WalkView {
            root: self.root@,
            pending: self.pending@.map_values(|p: WatchPath| p@),
            reading: match self.reading {
                Some(dir) => Some(dir@),
                None => None,
            },
            found: self.found@,
        }
    }
}

impl DirectorySnapshot {
    #[verifier::type_invariant]
    closed spec fn within_root(&self) -> bool {
        lies_within(self@)
    }

    /// A walk that has `root` to read and has found nothing yet.
    pub fn begin(root: WatchPath) -> (walk: DirectorySnapshot)
        ensures
            walk@ == walk_start(root@),
            lies_within(walk@),
    {
        let mut pending: Vec<WatchPath> = Vec::new();
        pending.push(root.clone());
        let ghost queued = pending@.map_values(|p: WatchPath| p@);
        assert(queued =~= seq![root@]);
        assert(root@.is_prefix_of(queued[0]));
        DirectorySnapshot { root, pending, reading: None, found: Baseline::new() }
    }

    /// Whether every directory has been read.
    pub fn is_complete(&self) -> (r: bool)
        ensures
            r == (self@.pending.len() == 0),
    {
        self.pending.len() == 0
    }

    /// Takes the directory to read next off the walk and awaits its
    /// listing; `None` once every directory has been read.
    pub fn next_directory(&mut self) -> (next: Option<WatchPath>)
        ensures
            final(self)@ == taken(old(self)@),
            lies_within(final(self)@),
            match next {
                Some(dir) => final(self)@.reading == Some(dir@),
                None => final(self)@.reading is None,
            },
    {
        proof {
            use_type_invariant(&*self);
        }
        // The list leaves the walk while it shrinks, so that list and
        // awaited directory are never seen out of step.
        let mut pending: Vec<WatchPath> = Vec::new();
        core::mem::swap(&mut pending, &mut self.pending);
        let ghost queued = pending@.map_values(|p: WatchPath| p@);
        let next = pending.pop();
        proof {
            if next is Some {
                assert(pending@.map_values(|p: WatchPath| p@) =~= queued.drop_last());
                assert(next->0@ == queued[queued.len() - 1]);
            } else {
                assert(pending@.map_values(|p: WatchPath| p@) =~= queued);
            }
        }
        core::mem::swap(&mut pending, &mut self.pending);
        let mut reading = match &next {
            Some(dir) => Some(dir.clone()),
            None => None,
        };
        core::mem::swap(&mut reading, &mut self.reading);
        next
    }

    /// Takes in what reading the directory that `next_directory` handed out
    /// gave.  `None` stands for a directory that could not be read: it is
    /// passed over.  Of a listing, the directories are queued in their
    /// order and the regular files that are replay files are kept, each
    /// under the path of the directory and its own name; every other entry
    /// is dropped.
    pub fn record_listing(&mut self, listing: Option<Vec<DirEntry>>)
        ensures
            final(self)@ == recorded(old(self)@, listing_of(listing)),
            lies_within(final(self)@),
    {
        proof {
            use_type_invariant(&*self);
        }
        let mut reading: Option<WatchPath> = None;
        core::mem::swap(&mut reading, &mut self.reading);
        let (dir, entries) = match (reading, listing) {
            (Some(dir), Some(entries)) => (dir, entries),
            _ => {
                return ;
            },
        };
        let ghost all = listing_view(entries@);
        let ghost root = self@.root;
        let ghost queued = self@.pending;
        let ghost kept = self@.found;
        // List and set leave the walk while they grow.
        let mut pending: Vec<WatchPath> = Vec::new();
        core::mem::swap(&mut pending, &mut self.pending);
        let mut found = Baseline::new();
        core::mem::swap(&mut found, &mut self.found);
        let mut i: usize = 0;
        proof {
            assert(all.take(0) =~= Seq::<DirEntryView>::empty());
            assert(pending@.map_values(|p: WatchPath| p@) =~= queued + directories_listed(
                dir@,
                all.take(0),
            ));
            assert(found@ =~= kept.union(replays_listed(dir@, all.take(0))));
        }
        while i < entries.len()
            invariant
                i <= entries.len(),
                all == listing_view(entries@),
                root.is_prefix_of(dir@),
                pending@.map_values(|p: WatchPath| p@) == queued + directories_listed(
                    dir@,
                    all.take(i as int),
                ),
                found@ == kept.union(replays_listed(dir@, all.take(i as int))),
            decreases entries.len() - i,
        {
            let entry = &entries[i];
            let ghost seen = all.take(i as int);
            proof {
                assert(all.take(i + 1) =~= seen.push(entry@));
                seen.lemma_filter_push(entry@, |e: DirEntryView| is_subdirectory(e));
                seen.lemma_filter_push(entry@, |e: DirEntryView| is_replay_entry(dir@, e));
            }
            let mut path = dir.clone();
            path.push(Component::Normal(entry.name.clone()));
            assert(path@ == entry_path(dir@, entry@));
            match entry.kind {
                EntryKind::Directory => {
                    let ghost before = pending@.map_values(|p: WatchPath| p@);
                    pending.push(path);
                    proof {
                        assert(pending@.map_values(|p: WatchPath| p@) =~= before.push(
                            entry_path(dir@, entry@),
                        ));
                        assert(directories_listed(dir@, seen.push(entry@)) =~= directories_listed(
                            dir@,
                            seen,
                        ).push(entry_path(dir@, entry@)));
                        assert(pending@.map_values(|p: WatchPath| p@) =~= queued
                            + directories_listed(dir@, all.take(i + 1)));
                    }
                },
                EntryKind::File => {
                    if is_slp_file(&path) {
                        found.insert(path);
                        proof {
                            let files = replay_files_listed(dir@, seen);
                            assert(replay_files_listed(dir@, seen.push(entry@)) =~= files.push(
                                entry_path(dir@, entry@),
                            ));
                            files.lemma_push_to_set_commute(entry_path(dir@, entry@));
                            assert(found@ =~= kept.union(replays_listed(dir@, all.take(i + 1))));
                        }
                    }
                },
                EntryKind::Other => {},
            }
            i += 1;
        }
        proof {
            assert(all.take(entries.len() as int) =~= all);
            lemma_listed_lie_within(root, dir@, all);
        }
        core::mem::swap(&mut pending, &mut self.pending);
        core::mem::swap(&mut found, &mut self.found);
    }

    /// Ends the walk and gives up what it found: replay files, every one
    /// of them in the root or below it.
    pub fn into_baseline(self) -> (found: Baseline)
        ensures
            found@ == self@.found,
            forall|path: PathView| #[trigger] found@.contains(path) ==> self@.root.is_prefix_of(path),
    {
        proof {
            use_type_invariant(&self);
            assert(lies_within(self@));
            assert(self.found@ == self@.found);
        }
        self.found
    }
}

} // verus!
