//! What holds of every run of change events through the filter.

use crate::path::{is_replay_path, lemma_contains_of_concat, PathView};
use crate::watch::{
    admitted_from, after_candidates, after_event, dispatched_by, in_scope, is_new, rearmed,
    CandidateView, ChangeEventView, WatchView,
};
use vstd::prelude::*;
use vstd::seq_lib::{lemma_no_dup_in_concat, to_multiset_contains};

verus! {

/// The state after `events` have come in, one after the other.
pub open spec fn after_events(state: WatchView, events: Seq<ChangeEventView>) -> WatchView
    decreases events.len(),
{
    if events.len() == 0 {
        state
    } else {
        after_event(after_events(state, events.drop_last()), events.last())
    }
}

/// Every path that `events` send on to be stabilized and uploaded, in the
/// order in which they are sent.
pub open spec fn dispatched_over(state: WatchView, events: Seq<ChangeEventView>) -> Seq<PathView>
    decreases events.len(),
{
    if events.len() == 0 {
        Seq::empty()
    } else {
        dispatched_over(state, events.drop_last()) + dispatched_by(
            after_events(state, events.drop_last()),
            events.last(),
        )
    }
}

/// Whether some candidate among `candidates` names `path` and is news to
/// `state`.
pub open spec fn is_news_among(state: WatchView, candidates: Seq<CandidateView>, path: PathView)
    -> bool {
    exists|i: int|
        0 <= i < candidates.len() && (#[trigger] candidates[i]).path == path && is_new(
            state,
            candidates[i],
        )
}

/// Whether some event among `events`, of a kind that can mean new content,
/// names `path` through a candidate that is news to `state`.
pub open spec fn is_news_over(state: WatchView, events: Seq<ChangeEventView>, path: PathView)
    -> bool {
    exists|k: int|
        0 <= k < events.len() && (#[trigger] events[k]).kind.announces_content() && is_news_among(
            state,
            events[k].candidates,
            path,
        )
}

/// What the filter does with one event's candidates: it touches nothing
/// but the baseline, adds to it exactly what it lets through, and lets
/// through, once each, exactly the paths that some candidate names and that
/// were news before the first.
pub proof fn lemma_candidates_through_filter(state: WatchView, candidates: Seq<CandidateView>)
    ensures
        after_candidates(state, candidates).watched == state.watched,
        after_candidates(state, candidates).handle == state.handle,
        after_candidates(state, candidates).baseline == state.baseline.union(
            admitted_from(state, candidates).to_set(),
        ),
        admitted_from(state, candidates).no_duplicates(),
        forall|p: PathView| #[trigger]
            admitted_from(state, candidates).contains(p) <==> is_news_among(state, candidates, p),
    decreases candidates.len(),
{
    let out = admitted_from(state, candidates);
    let end = after_candidates(state, candidates);
    if candidates.len() == 0 {
        assert(end.baseline =~= state.baseline.union(out.to_set()));
    } else {
        let front = candidates.drop_last();
        let last = candidates.last();
        let mid = after_candidates(state, front);
        let earlier = admitted_from(state, front);
        lemma_candidates_through_filter(state, front);
        assert forall|p: PathView| is_news_among(state, front, p) implies is_news_among(
            state,
            candidates,
            p,
        ) by {
            let i = choose|i: int|
                0 <= i < front.len() && (#[trigger] front[i]).path == p && is_new(state, front[i]);
            assert(candidates[i] == front[i]);
        }
        if is_new(mid, last) {
            assert(out == earlier.push(last.path));
            assert(!earlier.contains(last.path));
            earlier.lemma_push_to_set_commute(last.path);
            assert(end.baseline =~= state.baseline.union(out.to_set()));
            assert(is_new(state, last));
            assert(candidates[candidates.len() - 1] == last);
            assert(is_news_among(state, candidates, last.path));
            assert(out[out.len() - 1] == last.path);
        } else {
            assert(out == earlier);
            assert(end.baseline =~= state.baseline.union(out.to_set()));
        }
        assert forall|p: PathView| #[trigger] out.contains(p) <==> is_news_among(
            state,
            candidates,
            p,
        ) by {
            if out.contains(p) && !earlier.contains(p) {
                let j = choose|j: int| 0 <= j < out.len() && out[j] == p;
                assert(j == out.len() - 1);
            }
            if earlier.contains(p) {
                let j = choose|j: int| 0 <= j < earlier.len() && earlier[j] == p;
                assert(out[j] == p);
            }
            if is_news_among(state, candidates, p) && !earlier.contains(p) {
                let i = choose|i: int|
                    0 <= i < candidates.len() && (#[trigger] candidates[i]).path == p && is_new(
                        state,
                        candidates[i],
                    );
                if i < front.len() {
                    assert(front[i] == candidates[i]);
                    assert(is_news_among(state, front, p));
                } else {
                    assert(candidates[i] == last);
                    assert(!mid.baseline.contains(p));
                    assert(is_new(mid, last));
                }
            }
        }
    }
}

/// What the filter does over a run of events: it touches nothing but the
/// baseline, adds to it exactly what it sends on, and sends on, once each,
/// exactly the paths that some event names and that were news before the
/// first.
pub proof fn lemma_events_through_filter(state: WatchView, events: Seq<ChangeEventView>)
    ensures
        after_events(state, events).watched == state.watched,
        after_events(state, events).handle == state.handle,
        after_events(state, events).baseline == state.baseline.union(
            dispatched_over(state, events).to_set(),
        ),
        dispatched_over(state, events).no_duplicates(),
        forall|p: PathView| #[trigger]
            dispatched_over(state, events).contains(p) <==> is_news_over(state, events, p),
    decreases events.len(),
{
    let out = dispatched_over(state, events);
    let end = after_events(state, events);
    if events.len() == 0 {
        assert(end.baseline =~= state.baseline.union(out.to_set()));
    } else {
        let front = events.drop_last();
        let last = events.last();
        let mid = after_events(state, front);
        let earlier = dispatched_over(state, front);
        let tail = dispatched_by(mid, last);
        lemma_events_through_filter(state, front);
        if last.kind.announces_content() {
            lemma_candidates_through_filter(mid, last.candidates);
        } else {
            assert(tail.to_set() =~= Set::<PathView>::empty());
        }
        assert(out == earlier + tail);
        assert(end.baseline == mid.baseline.union(tail.to_set()));
        assert forall|i: int, j: int| 0 <= i < earlier.len() && 0 <= j < tail.len() implies earlier[i]
            != tail[j] by {
            assert(tail.contains(tail[j]));
            assert(is_news_among(mid, last.candidates, tail[j]));
            assert(earlier.contains(earlier[i]));
        }
        lemma_no_dup_in_concat(earlier, tail);
        assert(out.to_set() =~= earlier.to_set().union(tail.to_set())) by {
            assert forall|p: PathView| out.contains(p) <==> earlier.contains(p) || tail.contains(
                p,
            ) by {
                lemma_contains_of_concat(earlier, tail, p);
            }
        }
        assert(end.baseline =~= state.baseline.union(out.to_set()));
        assert forall|p: PathView| #[trigger] out.contains(p) <==> is_news_over(
            state,
            events,
            p,
        ) by {
            lemma_contains_of_concat(earlier, tail, p);
            if earlier.contains(p) {
                let k = choose|k: int|
                    0 <= k < front.len() && (#[trigger] front[k]).kind.announces_content()
                        && is_news_among(state, front[k].candidates, p);
                assert(events[k] == front[k]);
            }
            if tail.contains(p) {
                let i = choose|i: int|
                    0 <= i < last.candidates.len() && (#[trigger] last.candidates[i]).path == p
                        && is_new(mid, last.candidates[i]);
                assert(is_new(state, last.candidates[i]));
                assert(is_news_among(state, last.candidates, p));
                assert(events[events.len() - 1] == last);
            }
            if is_news_over(state, events, p) && !earlier.contains(p) {
                let k = choose|k: int|
                    0 <= k < events.len() && (#[trigger] events[k]).kind.announces_content()
                        && is_news_among(state, events[k].candidates, p);
                if k < front.len() {
                    assert(front[k] == events[k]);
                    assert(is_news_over(state, front, p));
                } else {
                    assert(events[k] == last);
                    let i = choose|i: int|
                        0 <= i < last.candidates.len() && (#[trigger] last.candidates[i]).path == p
                            && is_new(state, last.candidates[i]);
                    assert(!mid.baseline.contains(p));
                    assert(is_new(mid, last.candidates[i]));
                    assert(is_news_among(mid, last.candidates, p));
                }
            }
        }
    }
}

/// Within one watch a path is sent on at most once, however many events
/// name it.  It is sent on exactly once where some event, of a kind that can
/// mean new content, names it as a regular replay file under the watched
/// directory and the baseline did not hold it at the start; else never.
pub proof fn lemma_dispatched_exactly_once(
    state: WatchView,
    events: Seq<ChangeEventView>,
    path: PathView,
)
    ensures
        dispatched_over(state, events).no_duplicates(),
        dispatched_over(state, events).to_multiset().count(path) == (if is_news_over(
            state,
            events,
            path,
        ) {
            1nat
        } else {
            0nat
        }),
{
    let out = dispatched_over(state, events);
    lemma_events_through_filter(state, events);
    out.lemma_multiset_has_no_duplicates();
    to_multiset_contains(out, path);
    assert(out.contains(path) <==> is_news_over(state, events, path));
}

/// What is sent on was news at the start: a replay file under the watched
/// directory that the baseline did not hold.  And the baseline holds
/// afterwards what it held before and what was sent on, nothing else.
pub proof fn lemma_only_news_is_dispatched(
    state: WatchView,
    events: Seq<ChangeEventView>,
    path: PathView,
)
    ensures
        dispatched_over(state, events).contains(path) ==> is_replay_path(path) && in_scope(
            state.watched,
            path,
        ) && !state.baseline.contains(path),
        after_events(state, events).baseline.contains(path) <==> state.baseline.contains(path)
            || dispatched_over(state, events).contains(path),
{
    lemma_events_through_filter(state, events);
    if is_news_over(state, events, path) {
        let k = choose|k: int|
            0 <= k < events.len() && (#[trigger] events[k]).kind.announces_content()
                && is_news_among(state, events[k].candidates, path);
        let i = choose|i: int|
            0 <= i < events[k].candidates.len() && (#[trigger] events[k].candidates[i]).path == path
                && is_new(state, events[k].candidates[i]);
        assert(is_new(state, events[k].candidates[i]));
    }
}

/// A file that was there when the watch was pointed at its directory is
/// never taken for a new one: whatever the state was before, and whatever
/// events follow, no path of the snapshot is sent on.  Pointing the watch
/// at the same directory again begins afresh, with the second snapshot
/// alone.
pub proof fn lemma_snapshot_is_never_news(
    dir: PathView,
    snapshot: Set<PathView>,
    events: Seq<ChangeEventView>,
    path: PathView,
)
    requires
        snapshot.contains(path),
    ensures
        !dispatched_over(rearmed(dir, snapshot), events).contains(path),
        after_events(rearmed(dir, snapshot), events).baseline.contains(path),
{
    lemma_only_news_is_dispatched(rearmed(dir, snapshot), events, path);
}

/// A path whose extension is not the replay extension, in whatever case,
/// is never sent on and never joins the baseline.
pub proof fn lemma_other_extensions_never_pass(
    state: WatchView,
    events: Seq<ChangeEventView>,
    path: PathView,
)
    requires
        !is_replay_path(path),
    ensures
        !dispatched_over(state, events).contains(path),
        after_events(state, events).baseline.contains(path) == state.baseline.contains(path),
{
    lemma_only_news_is_dispatched(state, events, path);
}

/// A path that does not lie under the watched directory is passed over,
/// replay file or not: it is never sent on and never joins the baseline.
pub proof fn lemma_outside_paths_are_ignored(
    state: WatchView,
    events: Seq<ChangeEventView>,
    path: PathView,
)
    requires
        !in_scope(state.watched, path),
    ensures
        !dispatched_over(state, events).contains(path),
        after_events(state, events).baseline.contains(path) == state.baseline.contains(path),
{
    lemma_only_news_is_dispatched(state, events, path);
}

/// An event that names only paths outside the watched directory leaves the
/// state as it was and sends nothing on.
pub proof fn lemma_event_from_outside_changes_nothing(state: WatchView, event: ChangeEventView)
    requires
        forall|i: int|
            0 <= i < event.candidates.len() ==> !in_scope(
                state.watched,
                (#[trigger] event.candidates[i]).path,
            ),
    ensures
        after_event(state, event) == state,
        dispatched_by(state, event) == Seq::<PathView>::empty(),
{
    if event.kind.announces_content() {
        let out = admitted_from(state, event.candidates);
        lemma_candidates_through_filter(state, event.candidates);
        if out.len() > 0 {
            assert(out.contains(out[0]));
            let i = choose|i: int|
                0 <= i < event.candidates.len() && (#[trigger] event.candidates[i]).path == out[0]
                    && is_new(state, event.candidates[i]);
            assert(false);
        }
        assert(out =~= Seq::<PathView>::empty());
        assert(out.to_set() =~= Set::<PathView>::empty());
        assert(after_event(state, event).baseline =~= state.baseline);
    }
}

} // verus!
