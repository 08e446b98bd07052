//! The set of paths that a watch already knows.

use crate::path::{PathView, WatchPath};
use vstd::prelude::*;

verus! {

/// A set of paths that only grows: the files that were there when the watch
/// was armed, and those that have been handed on since.
///
/// The set is kept as a list and searched from end to end.  A hash set
/// keyed by paths would be quicker, but the verifier has no model of
/// hashing for keys that are types of this crate, and nothing could be
/// proved of what such a set holds.
pub struct Baseline {
    paths: Vec<WatchPath>,
}

impl View for Baseline {
    type V = Set<PathView>;

    closed spec fn view(&self) -> Set<PathView> {
        self.listed().to_set()
    }
}

impl Baseline {
    /// The paths held, in the order in which they came.
    closed spec fn listed(&self) -> Seq<PathView> {
        self.paths@.map_values(|p: WatchPath| p@)
    }

    /// No path is held twice.
    #[verifier::type_invariant]
    closed spec fn distinct(&self) -> bool {
        self.listed().no_duplicates()
    }

    /// The empty set.
    pub fn new() -> (r: Baseline)
        ensures
            r@ == Set::<PathView>::empty(),
    {
        Baseline { paths: Vec::new() }
    }

    /// The number of paths in the set.
    pub fn len(&self) -> (r: usize)
        ensures
            r == self@.len(),
    {
        proof {
            use_type_invariant(self);
            self.listed().unique_seq_to_set();
        }
        self.paths.len()
    }

    /// Whether `path` is in the set.
    pub fn contains(&self, path: &WatchPath) -> (r: bool)
        ensures
            r == self@.contains(path@),
    {
        let mut i: usize = 0;
        while i < self.paths.len()
            invariant
                i <= self.paths.len(),
                forall|j: int| 0 <= j < i ==> self.listed()[j] != path@,
            decreases self.paths.len() - i,
        {
            if self.paths[i].same(path) {
                assert(self.listed()[i as int] == path@);
                return true;
            }
            i += 1;
        }
        false
    }

    /// Puts `path` into the set, and says whether it was new to it.
    pub fn insert(&mut self, path: WatchPath) -> (r: bool)
        ensures
            final(self)@ == old(self)@.insert(path@),
            r == !old(self)@.contains(path@),
    {
        if self.contains(&path) {
            return false;
        }
        proof {
            use_type_invariant(&*self);
        }
        let ghost before = self.listed();
        // The list leaves the set while it grows, so that the set is never
        // seen half-built.
        let mut paths: Vec<WatchPath> = Vec::new();
        core::mem::swap(&mut paths, &mut self.paths);
        paths.push(path);
        assert(paths@.map_values(|p: WatchPath| p@) =~= before.push(path@));
        core::mem::swap(&mut paths, &mut self.paths);
        assert(self@ =~= old(self)@.insert(path@)) by {
            assert forall|p: PathView| self@.contains(p) <==> old(self)@.insert(
                path@,
            ).contains(p) by {
                if self@.contains(p) {
                    let k = choose|k: int| 0 <= k < self.listed().len() && self.listed()[k] == p;
                    if k < before.len() {
                        assert(before[k] == p);
                    }
                }
                if before.contains(p) {
                    let k = choose|k: int| 0 <= k < before.len() && before[k] == p;
                    assert(self.listed()[k] == p);
                }
                if p == path@ {
                    assert(self.listed()[before.len() as int] == p);
                }
            }
        }
        true
    }
}

} // verus!
