//! The state of the watch, the filter that change events pass through, and
//! the steps by which the watch is moved to another directory.

use crate::baseline::Baseline;
use crate::path::{is_replay_path, is_slp_file, PathView, WatchPath};
use vstd::prelude::*;
use vstd::string::StringExecFns;

verus! {

/// `notify::RecommendedWatcher`, the handle of a live filesystem watch on
/// this platform.  The watch lasts as long as its handle.  The type is
/// declared opaque: a handle is kept, handed on and handed back, and never
/// looked into.
#[verifier::external_type_specification]
#[verifier::external_body]
pub struct ExRecommendedWatcher(notify::RecommendedWatcher);

/// What kind of change an event reports.
#[derive(Clone, Copy, Debug, PartialEq, Eq, Structural)]
pub enum ChangeKind {
    /// A change of unknown kind.
    Any,
    /// A file was opened, read or closed.
    Access,
    /// A file or directory came into being.
    Create,
    /// Content, name or metadata changed.
    Modify,
    /// A file or directory went away.
    Remove,
    /// A change that fits none of the others.
    Other,
}

impl ChangeKind {
    /// Whether a change of this kind can mean that a file has new content:
    /// creations, modifications, and changes of unknown kind.
    pub open spec fn announces_content(self) -> bool {
        self == ChangeKind::Any || self == ChangeKind::Create || self == ChangeKind::Modify
    }

    /// Whether a change of this kind can mean that a file has new content.
    pub fn may_announce_content(&self) -> (r: bool)
        ensures
            r == self.announces_content(),
    {
        match self {
            ChangeKind::Any | ChangeKind::Create | ChangeKind::Modify => true,
            ChangeKind::Access | ChangeKind::Remove | ChangeKind::Other => false,
        }
    }
}

/// A path that a change event names, with what was found there.
#[derive(Debug)]
pub struct Candidate {
    pub path: WatchPath,
    /// Whether a regular file was at the path when the event came in.
    pub is_file: bool,
}

/// The mathematical value of a [`Candidate`].
pub struct CandidateView {
    pub path: PathView,
    pub is_file: bool,
}

impl View for Candidate {
    type V = CandidateView;

    open spec fn view(&self) -> CandidateView {
        CandidateView { path: self.path@, is_file: self.is_file }
    }
}

/// One change event: its kind and the paths it is about, in its order.
#[derive(Debug)]
pub struct ChangeEvent {
    pub kind: ChangeKind,
    pub candidates: Vec<Candidate>,
}

/// The mathematical value of a [`ChangeEvent`].
pub struct ChangeEventView {
    pub kind: ChangeKind,
    pub candidates: Seq<CandidateView>,
}

impl View for ChangeEvent {
    type V = ChangeEventView;

    open spec fn view(&self) -> ChangeEventView {
        ChangeEventView {
            kind: self.kind,
            candidates: self.candidates@.map_values(|c: Candidate| c@),
        }
    }
}

/// What is said of a directory that does not exist.
pub const NOT_FOUND_MESSAGE: &'static str = "Directory does not exist";

/// Why the watch could not be moved.
#[derive(Debug, PartialEq, Eq)]
pub enum WatchError {
    /// The directory does not exist.
    NotFound,
    /// The operating system would not install the watch; its words follow.
    WatchRegistrationFailed(String),
}

impl WatchError {
    /// The error in words.
    pub open spec fn message_text(self) -> Seq<char> {
        match self {
            WatchError::NotFound => NOT_FOUND_MESSAGE@,
            WatchError::WatchRegistrationFailed(reason) => reason@,
        }
    }

    /// The error in words, for the one who asked for the move.
    pub fn message(&self) -> (text: String)
        ensures
            text@ == self.message_text(),
    {
        match self {
            WatchError::NotFound => String::from_str(NOT_FOUND_MESSAGE),
            WatchError::WatchRegistrationFailed(reason) => reason.clone(),
        }
    }
}

/// The mathematical value of a [`WatchState`].
pub struct WatchView {
    /// The directory being watched, once one has been set.
    pub watched: Option<PathView>,
    /// The handle of the live watch, where there is one.
    pub handle: Option<notify::RecommendedWatcher>,
    /// The paths that are no longer news.
    pub baseline: Set<PathView>,
}

/// Whether `path` lies under the watched directory.  While no directory has
/// been set, every path does.
pub open spec fn in_scope(watched: Option<PathView>, path: PathView) -> bool {
    match watched {
        Some(base) => base.is_prefix_of(path),
        None => true,
    }
}

/// Whether a candidate is a regular file that is a replay file.
pub open spec fn qualifies(candidate: CandidateView) -> bool {
    candidate.is_file && is_replay_path(candidate.path)
}

/// Whether `candidate` is news to `state`: it qualifies, lies under the
/// watched directory, and is not in the baseline.
pub open spec fn is_new(state: WatchView, candidate: CandidateView) -> bool {
    &&& qualifies(candidate)
    &&& in_scope(state.watched, candidate.path)
    &&& !state.baseline.contains(candidate.path)
}

/// The state after `candidate` has passed the filter: what is news joins the
/// baseline, and nothing else changes.
pub open spec fn after_candidate(state: WatchView, candidate: CandidateView) -> WatchView {
    if is_new(state, candidate) {
        WatchView { baseline: state.baseline.insert(candidate.path), ..state }
    } else {
        state
    }
}

/// The state after `candidates` have passed the filter one by one.
pub open spec fn after_candidates(state: WatchView, candidates: Seq<CandidateView>) -> WatchView
    decreases candidates.len(),
{
    if candidates.len() == 0 {
        state
    } else {
        after_candidate(after_candidates(state, candidates.drop_last()), candidates.last())
    }
}

/// The paths among `candidates` that the filter lets through, in their
/// order: each one that is news when its turn comes.
pub open spec fn admitted_from(state: WatchView, candidates: Seq<CandidateView>) -> Seq<PathView>
    decreases candidates.len(),
{
    if candidates.len() == 0 {
        Seq::empty()
    } else {
        let earlier = admitted_from(state, candidates.drop_last());
        if is_new(after_candidates(state, candidates.drop_last()), candidates.last()) {
            earlier.push(candidates.last().path)
        } else {
            earlier
        }
    }
}

/// The state after one event.  An event whose kind cannot mean new content
/// changes nothing.
pub open spec fn after_event(state: WatchView, event: ChangeEventView) -> WatchView {
    if event.kind.announces_content() {
        after_candidates(state, event.candidates)
    } else {
        state
    }
}

/// The paths that one event sends on to be stabilized and uploaded.
pub open spec fn dispatched_by(state: WatchView, event: ChangeEventView) -> Seq<PathView> {
    if event.kind.announces_content() {
        admitted_from(state, event.candidates)
    } else {
        Seq::empty()
    }
}

/// The state after the watch has been pointed at `dir`: no handle is held,
/// and the baseline is the snapshot and nothing but the snapshot.
pub open spec fn rearmed(dir: PathView, snapshot: Set<PathView>) -> WatchView {
    WatchView { watched: Some(dir), handle: None, baseline: snapshot }
}

/// What is asked of the operating system when a watch is installed.
#[derive(Debug)]
pub struct WatchRequest {
    /// The directory to watch.
    pub dir: WatchPath,
    /// Whether every directory below `dir` is watched with it.
    pub recursive: bool,
}

/// The mathematical value of a [`WatchRequest`].
pub struct WatchRequestView {
    pub dir: PathView,
    pub recursive: bool,
}

impl View for WatchRequest {
    type V = WatchRequestView;

    open spec fn view(&self) -> WatchRequestView {
        WatchRequestView { dir: self.dir@, recursive: self.recursive }
    }
}

/// The watch that goes with `dir` as the watched directory: on `dir` and
/// on every directory below it, as far down as the filter's scope reaches.
pub open spec fn watch_of(dir: PathView) -> WatchRequestView {
    WatchRequestView { dir, recursive: true }
}

/// Makes up the request for the watch on `dir`: a recursive one.
pub fn watch_request(dir: &WatchPath) -> (request: WatchRequest)
    ensures
        request@ == watch_of(dir@),
{
    WatchRequest { dir: dir.clone(), recursive: true }
}

/// The views of a list of paths.
pub open spec fn paths_view(paths: Seq<WatchPath>) -> Seq<PathView> {
    paths.map_values(|p: WatchPath| p@)
}

/// The one record of what is being watched: the directory, the live watch,
/// and the baseline.  It is made once, empty, and changed only through the
/// operations below.
pub struct WatchState {
    watched_path: Option<WatchPath>,
    watcher: Option<notify::RecommendedWatcher>,
    baseline_paths: Baseline,
}

impl View for WatchState {
    type V = WatchView;

    closed spec fn view(&self) -> WatchView {
        WatchView {
            watched: match self.watched_path {
                Some(dir) => Some(dir@),
                None => None,
            },
            handle: self.watcher,
            baseline: self.baseline_paths@,
        }
    }
}

impl WatchState {
    /// The state at the start: no directory, no watch, an empty baseline.
    pub fn new() -> (state: WatchState)
        ensures
            state@ == (WatchView {
                watched: None,
                handle: None,
                baseline: Set::<PathView>::empty(),
            }),
    {
        WatchState { watched_path: None, watcher: None, baseline_paths: Baseline::new() }
    }

    /// The directory being watched, once one has been set.
    pub fn get_watched_path(&self) -> (dir: Option<&WatchPath>)
        ensures
            match dir {
                Some(dir) => self@.watched == Some(dir@),
                None => self@.watched is None,
            },
    {
        self.watched_path.as_ref()
    }

    /// Whether a watch is live.
    pub fn is_armed(&self) -> (r: bool)
        ensures
            r == self@.handle is Some,
    {
        self.watcher.is_some()
    }

    /// The baseline in force.
    pub fn baseline(&self) -> (baseline: &Baseline)
        ensures
            baseline@ == self@.baseline,
    {
        &self.baseline_paths
    }

    /// Passes one candidate through the filter.  It is let through, and
    /// joins the baseline, where it is a regular replay file under the
    /// watched directory that the baseline does not hold yet; else it is
    /// dropped and nothing changes.
    pub fn consider(&mut self, candidate: &Candidate) -> (admitted: bool)
        ensures
            admitted == is_new(old(self)@, candidate@),
            final(self)@ == after_candidate(old(self)@, candidate@),
    {
        if !candidate.is_file || !is_slp_file(&candidate.path) {
            return false;
        }
        let inside = match &self.watched_path {
            Some(base) => candidate.path.starts_with(base),
            None => true,
        };
        if !inside {
            return false;
        }
        let fresh = self.baseline_paths.insert(candidate.path.clone());
        proof {
            if !fresh {
                assert(self@.baseline =~= old(self)@.baseline);
            }
        }
        fresh
    }

    /// Passes the paths of one event through the filter, in their order,
    /// and returns those to be stabilized and uploaded.
    pub fn handle_event(&mut self, event: &ChangeEvent) -> (dispatched: Vec<WatchPath>)
        ensures
            final(self)@ == after_event(old(self)@, event@),
            paths_view(dispatched@) == dispatched_by(old(self)@, event@),
    {
        let mut dispatched: Vec<WatchPath> = Vec::new();
        if !event.kind.may_announce_content() {
            return dispatched;
        }
        let ghost candidates = event@.candidates;
        let mut i: usize = 0;
        while i < event.candidates.len()
            invariant
                i <= event.candidates.len(),
                candidates == event@.candidates,
                self@ == after_candidates(old(self)@, candidates.take(i as int)),
                paths_view(dispatched@) == admitted_from(old(self)@, candidates.take(i as int)),
            decreases event.candidates.len() - i,
        {
            let candidate = &event.candidates[i];
            proof {
                assert(candidates.take(i + 1).drop_last() =~= candidates.take(i as int));
            }
            if self.consider(candidate) {
                dispatched.push(candidate.path.clone());
            }
            i += 1;
        }
        assert(candidates.take(event.candidates.len() as int) =~= candidates);
        dispatched
    }

    /// Points the watch at `dir`, in one step: the handle of the old watch
    /// leaves the state and is returned, for the caller to let go of; `dir`
    /// becomes the watched directory; and `snapshot`, the replay files found
    /// under `dir`, replaces the baseline.  The state is then without a
    /// watch until `store_watcher` brings the new handle.
    pub fn start_watcher(&mut self, dir: WatchPath, snapshot: Baseline) -> (released: Option<
        notify::RecommendedWatcher,
    >)
        ensures
            released == old(self)@.handle,
            final(self)@ == rearmed(dir@, snapshot@),
    {
        let released = self.watcher.take();
        self.watched_path = Some(dir);
        self.baseline_paths = snapshot;
        released
    }

    /// Moves the watch to `dir` at a caller's request.  `found` is what a
    /// look at `dir` gave: `None` where it does not exist, else the replay
    /// files under it.  A directory that does not exist is refused and the
    /// state is left as it was; else the watch is pointed at `dir` as
    /// `start_watcher` does.
    pub fn set_watched_path(&mut self, dir: WatchPath, found: Option<Baseline>) -> (r: Result<
        Option<notify::RecommendedWatcher>,
        WatchError,
    >)
        ensures
            match found {
                Some(snapshot) => {
                    &&& r matches Ok(released)
                    &&& released == old(self)@.handle
                    &&& final(self)@ == rearmed(dir@, snapshot@)
                },
                None => r == Err::<Option<notify::RecommendedWatcher>, WatchError>(
                    WatchError::NotFound,
                ) && final(self)@ == old(self)@,
            },
    {
        match found {
            Some(snapshot) => Ok(self.start_watcher(dir, snapshot)),
            None => Err(WatchError::NotFound),
        }
    }

    /// Takes in how installing the new watch went.  A handle is kept, and
    /// the one it displaces, if any, is returned for the caller to let go
    /// of, so that the state never holds two.  A failure is passed on with
    /// the reason given, and the state is left as it was: without a watch,
    /// where `start_watcher` came before.
    pub fn store_watcher(&mut self, installed: Result<notify::RecommendedWatcher, String>) -> (r:
        Result<Option<notify::RecommendedWatcher>, WatchError>)
        ensures
            match installed {
                Ok(handle) => {
                    &&& r matches Ok(displaced)
                    &&& displaced == old(self)@.handle
                    &&& final(self)@ == (WatchView { handle: Some(handle), ..old(self)@ })
                },
                Err(reason) => r == Err::<Option<notify::RecommendedWatcher>, WatchError>(
                    WatchError::WatchRegistrationFailed(reason),
                ) && final(self)@ == old(self)@,
            },
    {
        match installed {
            Ok(handle) => {
                let mut slot = Some(handle);
                core::mem::swap(&mut slot, &mut self.watcher);
                Ok(slot)
            },
            Err(reason) => Err(WatchError::WatchRegistrationFailed(reason)),
        }
    }
}

impl Default for WatchState {
    fn default() -> (state: WatchState)
        ensures
            state@ == (WatchView {
                watched: None,
                handle: None,
                baseline: Set::<PathView>::empty(),
            }),
    {
        WatchState::new()
    }
}

} // verus!
