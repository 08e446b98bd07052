use replay_watch::probe::{
    wait_until_stable, ProbeAction, ProbeEvent, ProbeOutcome, StabilityProbe, MAX_POLLS,
    POLL_INTERVAL_MS,
};

#[test]
fn probe_constants() {
    assert_eq!(MAX_POLLS, 10);
    assert_eq!(POLL_INTERVAL_MS, 200);
}

#[test]
fn file_written_in_two_chunks_settles_on_the_second_equal_reading() {
    // First chunk seen, then the full size, then the full size again.
    let report = wait_until_stable(&vec![Some(40), Some(100), Some(100)]);
    assert_eq!(report.outcome, Some(ProbeOutcome::Stable));
    assert_eq!(report.polls, 3);
}

#[test]
fn file_seen_empty_then_in_two_chunks_settles_once_both_have_landed() {
    // Created empty, first chunk, second chunk, unchanged.
    let report = wait_until_stable(&vec![Some(0), Some(40), Some(100), Some(100)]);
    assert_eq!(report.outcome, Some(ProbeOutcome::Stable));
    assert_eq!(report.polls, 4);
}

#[test]
fn second_chunk_after_one_pause_is_waited_out() {
    // The file holds 50 bytes until 200 ms and 100 bytes from then on; the
    // probe begins at 0 ms and polls once every pause.
    let size_at = |t: u64| if t < 200 { 50u64 } else { 100u64 };
    let times: Vec<u64> = (0..10u64).map(|k| k * POLL_INTERVAL_MS).collect();
    let readings: Vec<Option<u64>> = times.iter().map(|t| Some(size_at(*t))).collect();
    let report = wait_until_stable(&readings);
    assert_eq!(report.outcome, Some(ProbeOutcome::Stable));
    assert_eq!(report.polls, 3);
    assert_eq!(readings[report.polls - 2], Some(100));
    assert_eq!(readings[report.polls - 1], Some(100));
    assert!(times[report.polls - 2] >= 200);
}

#[test]
fn probe_begun_late_needs_only_the_second_chunk_twice() {
    let size_at = |t: u64| if t < 200 { 50u64 } else { 100u64 };
    let times: Vec<u64> = (0..10u64).map(|k| 230 + k * (POLL_INTERVAL_MS + 7)).collect();
    let readings: Vec<Option<u64>> = times.iter().map(|t| Some(size_at(*t))).collect();
    let report = wait_until_stable(&readings);
    assert_eq!(report.outcome, Some(ProbeOutcome::Stable));
    assert_eq!(report.polls, 2);
    assert_eq!(readings[0], Some(100));
    assert_eq!(readings[1], Some(100));
}

#[test]
fn file_already_complete_needs_two_readings() {
    let report = wait_until_stable(&vec![Some(100), Some(100), Some(100)]);
    assert_eq!(report.outcome, Some(ProbeOutcome::Stable));
    assert_eq!(report.polls, 2);
}

#[test]
fn one_reading_never_settles() {
    let report = wait_until_stable(&vec![Some(100)]);
    assert_eq!(report.outcome, None);
    assert_eq!(report.polls, 1);
}

#[test]
fn no_reading_at_all() {
    let report = wait_until_stable(&vec![]);
    assert_eq!(report.outcome, None);
    assert_eq!(report.polls, 0);
}

#[test]
fn growing_file_is_let_through_when_the_polls_are_used_up() {
    let readings: Vec<Option<u64>> = (1..=25u64).map(|n| Some(n * 10)).collect();
    let report = wait_until_stable(&readings);
    assert_eq!(report.outcome, Some(ProbeOutcome::Exhausted));
    assert_eq!(report.polls, 10);
}

#[test]
fn exactly_ten_growing_readings_exhaust_the_probe() {
    let readings: Vec<Option<u64>> = (1..=10u64).map(Some).collect();
    let report = wait_until_stable(&readings);
    assert_eq!(report.outcome, Some(ProbeOutcome::Exhausted));
    assert_eq!(report.polls, 10);
}

#[test]
fn nine_growing_readings_leave_the_probe_open() {
    let readings: Vec<Option<u64>> = (1..=9u64).map(Some).collect();
    let report = wait_until_stable(&readings);
    assert_eq!(report.outcome, None);
    assert_eq!(report.polls, 9);
}

#[test]
fn tenth_reading_can_still_settle() {
    let mut readings: Vec<Option<u64>> = (1..=9u64).map(Some).collect();
    readings.push(Some(9));
    let report = wait_until_stable(&readings);
    assert_eq!(report.outcome, Some(ProbeOutcome::Stable));
    assert_eq!(report.polls, 10);
}

#[test]
fn empty_file_never_counts_as_stable() {
    let report = wait_until_stable(&vec![Some(0); 12]);
    assert_eq!(report.outcome, Some(ProbeOutcome::Exhausted));
    assert_eq!(report.polls, 10);
}

#[test]
fn empty_file_that_fills_up_settles_afterwards() {
    let report = wait_until_stable(&vec![Some(0), Some(0), Some(7), Some(7)]);
    assert_eq!(report.outcome, Some(ProbeOutcome::Stable));
    assert_eq!(report.polls, 4);
}

#[test]
fn unreadable_size_ends_the_probe_at_once() {
    let report = wait_until_stable(&vec![None, Some(5), Some(5)]);
    assert_eq!(report.outcome, Some(ProbeOutcome::Unreadable));
    assert_eq!(report.polls, 1);
    let report = wait_until_stable(&vec![Some(5), None, Some(5)]);
    assert_eq!(report.outcome, Some(ProbeOutcome::Unreadable));
    assert_eq!(report.polls, 2);
}

#[test]
fn equal_readings_must_be_neighbours() {
    let report = wait_until_stable(&vec![Some(5), Some(6), Some(5), Some(6), Some(6)]);
    assert_eq!(report.outcome, Some(ProbeOutcome::Stable));
    assert_eq!(report.polls, 5);
}

#[test]
fn probe_asks_for_a_reading_then_a_pause() {
    let mut probe = StabilityProbe::new();
    assert_eq!(probe.pending(), ProbeAction::Measure);
    assert_eq!(probe.outcome(), None);
    assert_eq!(probe.advance(ProbeEvent::Measured(40)), ProbeAction::Sleep(200));
    assert_eq!(probe.pending(), ProbeAction::Sleep(200));
    assert_eq!(probe.advance(ProbeEvent::Slept), ProbeAction::Measure);
    assert_eq!(probe.advance(ProbeEvent::Measured(100)), ProbeAction::Sleep(200));
    assert_eq!(probe.advance(ProbeEvent::Slept), ProbeAction::Measure);
    assert_eq!(
        probe.advance(ProbeEvent::Measured(100)),
        ProbeAction::Finish(ProbeOutcome::Stable)
    );
    assert_eq!(probe.outcome(), Some(ProbeOutcome::Stable));
}

#[test]
fn probe_passes_over_events_it_is_not_waiting_for() {
    let mut probe = StabilityProbe::new();
    assert_eq!(probe.advance(ProbeEvent::Slept), ProbeAction::Measure);
    assert_eq!(probe.advance(ProbeEvent::Measured(8)), ProbeAction::Sleep(200));
    // A reading while the probe pauses is dropped: 8 stays the last size.
    assert_eq!(probe.advance(ProbeEvent::Measured(9)), ProbeAction::Sleep(200));
    assert_eq!(probe.advance(ProbeEvent::Unreadable), ProbeAction::Sleep(200));
    assert_eq!(probe.advance(ProbeEvent::Slept), ProbeAction::Measure);
    assert_eq!(
        probe.advance(ProbeEvent::Measured(8)),
        ProbeAction::Finish(ProbeOutcome::Stable)
    );
}

#[test]
fn probe_that_has_ended_stays_ended() {
    let mut probe = StabilityProbe::new();
    assert_eq!(
        probe.advance(ProbeEvent::Unreadable),
        ProbeAction::Finish(ProbeOutcome::Unreadable)
    );
    assert_eq!(
        probe.advance(ProbeEvent::Measured(5)),
        ProbeAction::Finish(ProbeOutcome::Unreadable)
    );
    assert_eq!(probe.advance(ProbeEvent::Slept), ProbeAction::Finish(ProbeOutcome::Unreadable));
    assert_eq!(probe.outcome(), Some(ProbeOutcome::Unreadable));
}

#[test]
fn probe_pauses_after_its_last_poll_before_it_gives_up() {
    let mut probe = StabilityProbe::new();
    for n in 1..=9u64 {
        assert_eq!(probe.advance(ProbeEvent::Measured(n)), ProbeAction::Sleep(200));
        assert_eq!(probe.advance(ProbeEvent::Slept), ProbeAction::Measure);
    }
    assert_eq!(probe.advance(ProbeEvent::Measured(10)), ProbeAction::Sleep(200));
    assert_eq!(probe.outcome(), None);
    assert_eq!(probe.advance(ProbeEvent::Slept), ProbeAction::Finish(ProbeOutcome::Exhausted));
    assert_eq!(probe.outcome(), Some(ProbeOutcome::Exhausted));
}

#[test]
fn probe_ends_within_twenty_events_whatever_it_reads() {
    let mut probe = StabilityProbe::new();
    let mut events = 0;
    let mut size = 1u64;
    loop {
        let action = match probe.pending() {
            ProbeAction::Measure => {
                size += 3;
                probe.advance(ProbeEvent::Measured(size))
            }
            ProbeAction::Sleep(_) => probe.advance(ProbeEvent::Slept),
            ProbeAction::Finish(_) => break,
        };
        events += 1;
        assert!(events <= 20);
        if let ProbeAction::Finish(outcome) = action {
            assert_eq!(outcome, ProbeOutcome::Exhausted);
        }
    }
    assert_eq!(events, 20);
}
