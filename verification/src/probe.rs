//! Waiting for a file to stop growing.
//!
//! A file counts as written once two polls in a row read the same size,
//! that size not being zero.  The number of polls is bounded: a file that
//! keeps growing is let through when the bound is reached.  This is a rule
//! of thumb and no proof that the writer is done.

use vstd::prelude::*;

verus! {

/// The most polls that one probe makes.
pub const MAX_POLLS: u32 = 10;

/// The pause after a poll that did not settle the matter, in milliseconds.
/// A write that pauses no longer than this between two chunks is waited
/// out: two polls in a row cannot both fall into the pause.
pub const POLL_INTERVAL_MS: u64 = 200;

/// How a probe ended.
#[derive(Clone, Copy, Debug, PartialEq, Eq, Structural)]
pub enum ProbeOutcome {
    /// Two polls in a row read the same size, and it was not zero.
    Stable,
    /// Every poll was used up and no two in a row agreed.
    Exhausted,
    /// The size could not be read.
    Unreadable,
}

/// What the caller has done for the probe.
#[derive(Clone, Copy, Debug, PartialEq, Eq, Structural)]
pub enum ProbeEvent {
    /// The file's size was read.
    Measured(u64),
    /// The file's size could not be read.
    Unreadable,
    /// The pause is over.
    Slept,
}

/// What the probe asks of the caller next.
#[derive(Clone, Copy, Debug, PartialEq, Eq, Structural)]
pub enum ProbeAction {
    /// Read the file's size and report it.
    Measure,
    /// Pause for so many milliseconds and report back.
    Sleep(u64),
    /// Nothing more: the probe has ended.
    Finish(ProbeOutcome),
}

/// Where a probe stands between two events.
#[derive(Clone, Copy, Debug, PartialEq, Eq, Structural)]
pub enum ProbePhase {
    Measuring,
    Sleeping,
    Finished(ProbeOutcome),
}

/// The mathematical value of a [`StabilityProbe`].
pub struct ProbeView {
    /// The size that the last poll read; zero before the first.
    pub last_len: u64,
    /// The polls made so far that did not end the probe.
    pub polls: nat,
    pub phase: ProbePhase,
}

/// A probe before its first poll.
pub open spec fn probe_start() -> ProbeView {
    ProbeView { last_len: 0, polls: 0, phase: ProbePhase::Measuring }
}

/// What a probe in `state` is waiting for.
pub open spec fn awaited(state: ProbeView) -> ProbeAction {
    match state.phase {
        ProbePhase::Measuring => ProbeAction::Measure,
        ProbePhase::Sleeping => ProbeAction::Sleep(POLL_INTERVAL_MS),
        ProbePhase::Finished(outcome) => ProbeAction::Finish(outcome),
    }
}

/// The state that follows `state` on `event`.  An event that the probe is
/// not waiting for changes nothing.
pub open spec fn probe_next(state: ProbeView, event: ProbeEvent) -> ProbeView {
    match (state.phase, event) {
        (ProbePhase::Measuring, ProbeEvent::Measured(len)) => {
            if len > 0 && len == state.last_len {
                ProbeView { phase: ProbePhase::Finished(ProbeOutcome::Stable), ..state }
            } else {
                ProbeView { last_len: len, polls: state.polls + 1, phase: ProbePhase::Sleeping }
            }
        },
        (ProbePhase::Measuring, ProbeEvent::Unreadable) => ProbeView {
            phase: ProbePhase::Finished(ProbeOutcome::Unreadable),
            ..state
        },
        (ProbePhase::Sleeping, ProbeEvent::Slept) => {
            if state.polls >= MAX_POLLS {
                ProbeView { phase: ProbePhase::Finished(ProbeOutcome::Exhausted), ..state }
            } else {
                ProbeView { phase: ProbePhase::Measuring, ..state }
            }
        },
        _ => state,
    }
}

/// What holds of every state that a probe can be in: it never polls past
/// its bound, and it polls only while it has polls left.
pub open spec fn within_budget(state: ProbeView) -> bool {
    &&& state.polls <= MAX_POLLS
    &&& state.phase == ProbePhase::Measuring ==> state.polls < MAX_POLLS
}

/// The events that a probe can still take before it must have ended,
/// counted from `state`.
pub open spec fn events_left(state: ProbeView) -> nat {
    match state.phase {
        ProbePhase::Measuring => (2 * (MAX_POLLS - state.polls)) as nat,
        ProbePhase::Sleeping => (2 * (MAX_POLLS - state.polls) + 1) as nat,
        ProbePhase::Finished(_) => 0,
    }
}

/// A probe stays within its budget whatever it is told.
pub proof fn lemma_budget_is_kept(state: ProbeView, event: ProbeEvent)
    requires
        within_budget(state),
    ensures
        within_budget(probe_next(state, event)),
{
}

/// A probe cannot be held up: each event that it is waiting for brings it
/// nearer its end, and it starts at most twenty such events away from it.
pub proof fn lemma_probe_advances(state: ProbeView, event: ProbeEvent)
    requires
        within_budget(state),
        !(state.phase is Finished),
        match state.phase {
            ProbePhase::Measuring => event is Measured || event is Unreadable,
            ProbePhase::Sleeping => event is Slept,
            ProbePhase::Finished(_) => false,
        },
    ensures
        events_left(probe_next(state, event)) < events_left(state),
        events_left(state) <= 2 * MAX_POLLS + 1,
        events_left(probe_start()) == 2 * MAX_POLLS,
{
}

/// A probe that has ended stays ended, with the same outcome.
pub proof fn lemma_finished_is_final(state: ProbeView, event: ProbeEvent)
    requires
        state.phase is Finished,
    ensures
        probe_next(state, event) == state,
{
}

/// The state of one probe of one file.
#[derive(Debug)]
pub struct StabilityProbe {
    last_len: u64,
    polls: u32,
    phase: ProbePhase,
}

impl View for StabilityProbe {
    type V = ProbeView;

    closed spec fn view(&self) -> ProbeView {
        ProbeView { last_len: self.last_len, polls: self.polls as nat, phase: self.phase }
    }
}

impl StabilityProbe {
    #[verifier::type_invariant]
    closed spec fn budgeted(&self) -> bool {
        within_budget(self@)
    }

    /// A probe before its first poll.
    pub fn new() -> (probe: StabilityProbe)
        ensures
            probe@ == probe_start(),
    {
        StabilityProbe { last_len: 0, polls: 0, phase: ProbePhase::Measuring }
    }

    /// What the probe is waiting for.
    pub fn pending(&self) -> (action: ProbeAction)
        ensures
            action == awaited(self@),
            within_budget(self@),
    {
        proof {
            use_type_invariant(self);
        }
        match self.phase {
            ProbePhase::Measuring => ProbeAction::Measure,
            ProbePhase::Sleeping => ProbeAction::Sleep(POLL_INTERVAL_MS),
            ProbePhase::Finished(outcome) => ProbeAction::Finish(outcome),
        }
    }

    /// How the probe ended, once it has.
    pub fn outcome(&self) -> (r: Option<ProbeOutcome>)
        ensures
            r == match self@.phase {
                ProbePhase::Finished(outcome) => Some(outcome),
                _ => None,
            },
    {
        match self.phase {
            ProbePhase::Finished(outcome) => Some(outcome),
            _ => None,
        }
    }

    /// Takes in what the caller did and says what to do next.
    pub fn advance(&mut self, event: ProbeEvent) -> (action: ProbeAction)
        ensures
            final(self)@ == probe_next(old(self)@, event),
            action == awaited(final(self)@),
            within_budget(final(self)@),
    {
        proof {
            use_type_invariant(&*self);
        }
        match (self.phase, event) {
            (ProbePhase::Measuring, ProbeEvent::Measured(len)) => {
                if len > 0 && len == self.last_len {
                    self.phase = ProbePhase::Finished(ProbeOutcome::Stable);
                } else {
                    *self = StabilityProbe {
                        last_len: len,
                        polls: self.polls + 1,
                        phase: ProbePhase::Sleeping,
                    };
                }
            },
            (ProbePhase::Measuring, ProbeEvent::Unreadable) => {
                self.phase = ProbePhase::Finished(ProbeOutcome::Unreadable);
            },
            (ProbePhase::Sleeping, ProbeEvent::Slept) => {
                if self.polls >= MAX_POLLS {
                    self.phase = ProbePhase::Finished(ProbeOutcome::Exhausted);
                } else {
                    self.phase = ProbePhase::Measuring;
                }
            },
            _ => {},
        }
        self.pending()
    }
}

/// Whether the poll at position `k` of `readings` ends a probe: the size
/// could not be read, or it is not zero and the poll before read the same.
/// `None` stands for a size that could not be read.
pub open spec fn settles_at(readings: Seq<Option<u64>>, k: int) -> bool {
    &&& 0 <= k < readings.len()
    &&& match readings[k] {
        None => true,
        Some(len) => len > 0 && k > 0 && readings[k - 1] == Some(len),
    }
}

/// No poll before position `k` ends a probe.
pub open spec fn unsettled_before(readings: Seq<Option<u64>>, k: int) -> bool {
    forall|j: int| 0 <= j < k ==> !settles_at(readings, j)
}

/// The event that a reading makes: `None` stands for a size that could not
/// be read.
pub open spec fn reading_event(reading: Option<u64>) -> ProbeEvent {
    match reading {
        Some(len) => ProbeEvent::Measured(len),
        None => ProbeEvent::Unreadable,
    }
}

/// The probe after its polls have read `readings`, in order, each pause
/// over as soon as it was asked for.  Readings that come after the probe
/// has ended change nothing.
pub open spec fn probe_after(readings: Seq<Option<u64>>) -> ProbeView
    decreases readings.len(),
{
    if readings.len() == 0 {
        probe_start()
    } else {
        probe_next(
            probe_next(probe_after(readings.drop_last()), reading_event(readings.last())),
            ProbeEvent::Slept,
        )
    }
}

/// Between polls a probe is either ready for the next one, having taken
/// every reading so far, or it has ended.  So no probe outlasts its polls:
/// once as many readings have come as the bound allows, the probe has ended.
pub proof fn lemma_probe_never_outlasts_its_polls(readings: Seq<Option<u64>>)
    ensures
        within_budget(probe_after(readings)),
        probe_after(readings).phase == ProbePhase::Measuring || probe_after(
            readings,
        ).phase is Finished,
        probe_after(readings).phase == ProbePhase::Measuring ==> probe_after(readings).polls
            == readings.len(),
        readings.len() >= MAX_POLLS ==> probe_after(readings).phase is Finished,
    decreases readings.len(),
{
    if readings.len() > 0 {
        lemma_probe_never_outlasts_its_polls(readings.drop_last());
    }
}

/// A file that keeps growing is let through when the polls are used up:
/// where every size can be read and no two polls in a row read the same,
/// the probe ends as exhausted with the last poll that the bound allows,
/// and not before.
pub proof fn lemma_growing_file_is_let_through(readings: Seq<Option<u64>>)
    requires
        forall|i: int| 0 <= i < readings.len() ==> (#[trigger] readings[i]) is Some,
        forall|i: int| 0 < i < readings.len() ==> (#[trigger] readings[i]) != readings[i - 1],
    ensures
        readings.len() >= MAX_POLLS ==> probe_after(readings).phase == ProbePhase::Finished(
            ProbeOutcome::Exhausted,
        ),
        readings.len() < MAX_POLLS ==> probe_after(readings).phase == ProbePhase::Measuring,
        0 < readings.len() < MAX_POLLS ==> Some(probe_after(readings).last_len) == readings.last(),
    decreases readings.len(),
{
    if readings.len() > 0 {
        let front = readings.drop_last();
        assert forall|i: int| 0 < i < front.len() implies (#[trigger] front[i]) != front[i
            - 1] by {
            assert(front[i] == readings[i] && front[i - 1] == readings[i - 1]);
        }
        assert forall|i: int| 0 <= i < front.len() implies (#[trigger] front[i]) is Some by {
            assert(front[i] == readings[i]);
        }
        lemma_growing_file_is_let_through(front);
        lemma_probe_never_outlasts_its_polls(front);
    }
}

/// While no poll has settled the matter and polls are left, the probe is
/// ready for the next one and remembers the size read last.
pub proof fn lemma_unsettled_probe_goes_on(readings: Seq<Option<u64>>)
    requires
        unsettled_before(readings, readings.len() as int),
        readings.len() < MAX_POLLS,
    ensures
        probe_after(readings).phase == ProbePhase::Measuring,
        probe_after(readings).polls == readings.len(),
        readings.len() == 0 ==> probe_after(readings).last_len == 0,
        readings.len() > 0 ==> readings.last() == Some(probe_after(readings).last_len),
    decreases readings.len(),
{
    if readings.len() > 0 {
        let front = readings.drop_last();
        let k = readings.len() - 1;
        assert forall|j: int| 0 <= j < front.len() implies !settles_at(front, j) by {
            assert(!settles_at(readings, j));
        }
        lemma_unsettled_probe_goes_on(front);
        assert(!settles_at(readings, k));
    }
}

/// A probe ends with the first poll that settles it: as stable where that
/// poll read a size that is not zero and that the poll before had read too,
/// as unreadable where it could not read the size.
pub proof fn lemma_probe_ends_with_first_settling_poll(readings: Seq<Option<u64>>, k: int)
    requires
        0 <= k < readings.len(),
        k < MAX_POLLS,
        settles_at(readings, k),
        unsettled_before(readings, k),
    ensures
        probe_after(readings).phase == ProbePhase::Finished(
            if readings[k] is Some {
                ProbeOutcome::Stable
            } else {
                ProbeOutcome::Unreadable
            },
        ),
{
    let front = readings.take(k);
    let upto = readings.take(k + 1);
    assert forall|j: int| 0 <= j < front.len() implies !settles_at(front, j) by {
        assert(!settles_at(readings, j));
    }
    lemma_unsettled_probe_goes_on(front);
    assert(upto.drop_last() =~= front);
    lemma_later_readings_change_nothing(readings, k + 1);
}

/// Readings that come after a probe has ended change nothing.
pub proof fn lemma_later_readings_change_nothing(readings: Seq<Option<u64>>, polls: int)
    requires
        0 <= polls <= readings.len(),
        probe_after(readings.take(polls)).phase is Finished,
    ensures
        probe_after(readings) == probe_after(readings.take(polls)),
    decreases readings.len(),
{
    if polls < readings.len() {
        assert(readings.drop_last().take(polls) =~= readings.take(polls));
        lemma_later_readings_change_nothing(readings.drop_last(), polls);
    } else {
        assert(readings.take(polls) =~= readings);
    }
}

/// Whether the polls at `times`, in milliseconds, keep their distance: each
/// comes at least a pause after the one before.
pub open spec fn paced(times: Seq<int>) -> bool {
    forall|k: int| 0 < k < times.len() ==> (#[trigger] times[k]) >= times[k - 1] + POLL_INTERVAL_MS
}

/// What polls at `times` read of a file that can be read throughout and
/// whose size at each moment is `size_at`.
pub open spec fn readings_at(size_at: spec_fn(int) -> u64, times: Seq<int>) -> Seq<Option<u64>> {
    Seq::new(times.len(), |k: int| Some(size_at(times[k])))
}

/// A file written in two chunks is waited out.  Where the second chunk
/// lands no later than a pause after the first, and the file then stays as
/// it is, the probe ends as stable, and the two polls that agree both came
/// after the second chunk had landed: whenever the probe began, and however
/// long each poll took beyond its pause.
pub proof fn lemma_two_chunks_are_waited_out(
    size_at: spec_fn(int) -> u64,
    times: Seq<int>,
    gap: int,
    first: u64,
    second: u64,
)
    requires
        0 < gap <= POLL_INTERVAL_MS,
        first != second,
        second > 0,
        forall|t: int|
            #[trigger] size_at(t) == (if t < gap {
                first
            } else {
                second
            }),
        3 <= times.len(),
        0 <= times[0],
        paced(times),
    ensures
        probe_after(readings_at(size_at, times)).phase == ProbePhase::Finished(
            ProbeOutcome::Stable,
        ),
        ({
            let readings = readings_at(size_at, times);
            let k: int = if times[0] >= gap {
                1
            } else {
                2
            };
            &&& settles_at(readings, k)
            &&& unsettled_before(readings, k)
            &&& times[k - 1] >= gap
            &&& times[k] >= gap
            &&& readings[k - 1] == Some(second)
            &&& readings[k] == Some(second)
        }),
{
    let readings = readings_at(size_at, times);
    let k: int = if times[0] >= gap {
        1
    } else {
        2
    };
    assert(times[1] >= times[0] + POLL_INTERVAL_MS);
    assert(times[2] >= times[1] + POLL_INTERVAL_MS);
    assert(readings[0] == Some(size_at(times[0])));
    assert(readings[1] == Some(size_at(times[1])));
    assert(readings[2] == Some(size_at(times[2])));
    assert(!settles_at(readings, 0));
    lemma_probe_ends_with_first_settling_poll(readings, k);
}

/// How a probe fared on a given run of readings.
#[derive(Debug)]
pub struct ProbeReport {
    /// How the probe ended; `None` where the readings ran out first.
    pub outcome: Option<ProbeOutcome>,
    /// The number of readings that the probe took.
    pub polls: usize,
}

/// Runs a probe over the sizes that its polls would read, in order, each
/// pause taken as soon as it is asked for.  The probe ends with the first
/// poll that settles it, or with its last poll where none does.
pub fn wait_until_stable(readings: &Vec<Option<u64>>) -> (report: ProbeReport)
    ensures
        report.polls <= readings.len(),
        report.polls <= MAX_POLLS,
        readings.len() >= MAX_POLLS ==> report.outcome is Some,
        unsettled_before(readings@, report.polls - 1),
        match report.outcome {
            Some(ProbeOutcome::Stable) => settles_at(readings@, report.polls - 1)
                && readings@[report.polls - 1] is Some,
            Some(ProbeOutcome::Unreadable) => settles_at(readings@, report.polls - 1)
                && readings@[report.polls - 1] is None,
            Some(ProbeOutcome::Exhausted) => report.polls == MAX_POLLS && unsettled_before(
                readings@,
                MAX_POLLS as int,
            ),
            None => report.polls == readings.len() && unsettled_before(
                readings@,
                readings.len() as int,
            ),
        },
        probe_after(readings@).phase == (match report.outcome {
            Some(outcome) => ProbePhase::Finished(outcome),
            None => ProbePhase::Measuring,
        }),
{
    let mut probe = StabilityProbe::new();
    let mut i: usize = 0;
    while i < readings.len()
        invariant
            i <= readings.len(),
            probe@ == probe_after(readings@.take(i as int)),
            probe@.phase == ProbePhase::Measuring,
            probe@.polls == i,
            within_budget(probe@),
            i == 0 ==> probe@.last_len == 0,
            i > 0 ==> readings@[i - 1] == Some(probe@.last_len),
            unsettled_before(readings@, i as int),
        decreases readings.len() - i,
    {
        let event = match readings[i] {
            Some(len) => ProbeEvent::Measured(len),
            None => ProbeEvent::Unreadable,
        };
        proof {
            assert(readings@.take(i + 1).drop_last() =~= readings@.take(i as int));
        }
        let action = probe.advance(event);
        i += 1;
        match action {
            ProbeAction::Finish(outcome) => {
                proof {
                    lemma_later_readings_change_nothing(readings@, i as int);
                }
                return ProbeReport { outcome: Some(outcome), polls: i };
            },
            ProbeAction::Sleep(_) => {
                if let ProbeAction::Finish(outcome) = probe.advance(ProbeEvent::Slept) {
                    proof {
                        lemma_later_readings_change_nothing(readings@, i as int);
                    }
                    return ProbeReport { outcome: Some(outcome), polls: i };
                }
            },
            ProbeAction::Measure => {},
        }
    }
    assert(readings@.take(i as int) =~= readings@);
    ProbeReport { outcome: None, polls: i }
}

} // verus!
