use mission_centre_pg::clock::{Moment, Span};
use mission_centre_pg::collector::worker::{
    backoff_delay, classify_history_error, classify_slow, failures_after_connect_error,
    failures_after_exit, is_slow_tick, query_error, reconnect_delay, take_slow_tick,
    CollectorError, HistoryOutcome, LoopExit, SamplerState, FAILURES_BEFORE_DISCONNECT,
};

const SECOND: u64 = 1_000_000_000;

fn now() -> Moment {
    Moment { nanos: 1_000 * SECOND }
}

fn earlier(moment: Moment, seconds: u64) -> Moment {
    Moment { nanos: moment.nanos - seconds * SECOND }
}

fn later(moment: Moment, seconds: u64) -> Moment {
    Moment { nanos: moment.nanos + seconds * SECOND }
}

#[test]
fn a_pgconsole_write_failure_disables_history_without_failing_the_sample() {
    let outcome = classify_history_error(CollectorError::Query("permission denied".into()));
    assert!(matches!(outcome, HistoryOutcome::Disable));
}

#[test]
fn a_pgconsole_write_timeout_skips_the_write_without_failing_the_sample() {
    assert!(matches!(
        classify_history_error(CollectorError::Timeout),
        HistoryOutcome::SkipWrite
    ));
}

#[test]
fn a_pgconsole_write_connection_loss_skips_the_write_without_failing_the_sample() {
    assert!(matches!(
        classify_history_error(CollectorError::LostConnection),
        HistoryOutcome::SkipWrite
    ));
}

#[test]
fn backoff_doubles_and_then_caps_at_thirty_seconds() {
    assert_eq!(backoff_delay(0), Span::from_secs(1));
    assert_eq!(backoff_delay(1), Span::from_secs(2));
    assert_eq!(backoff_delay(2), Span::from_secs(4));
    assert_eq!(backoff_delay(3), Span::from_secs(8));
    assert_eq!(backoff_delay(4), Span::from_secs(16));
    assert_eq!(backoff_delay(5), Span::from_secs(30));
    assert_eq!(backoff_delay(50), Span::from_secs(30));
}

#[test]
fn errors_render_without_exposing_connection_details() {
    let error = CollectorError::Connect("password authentication failed".to_string());
    let rendered = error.message();
    assert!(rendered.contains("password authentication failed"));
    assert!(!rendered.contains("postgresql://"));
}

#[test]
fn the_first_sample_of_a_connection_runs_the_fast_tier_only() {
    assert!(!is_slow_tick(None, now(), Span::from_secs(10), true));
}

#[test]
fn the_slow_tier_fires_on_the_tick_after_the_first_sample() {
    assert!(is_slow_tick(None, now(), Span::from_secs(10), false));
}

#[test]
fn the_slow_tier_waits_for_its_interval() {
    let recent = earlier(now(), 3);
    assert!(!is_slow_tick(Some(recent), now(), Span::from_secs(10), false));
}

#[test]
fn the_slow_tier_runs_once_the_interval_has_elapsed() {
    let stale = earlier(now(), 11);
    assert!(is_slow_tick(Some(stale), now(), Span::from_secs(10), false));
}

#[test]
fn a_slow_tier_query_error_degrades_one_page_not_the_connection() {
    let classified = classify_slow(Err::<(), _>(CollectorError::Query(
        "permission denied for view pg_stat_statements".to_string(),
    )));
    assert!(matches!(classified, Ok(Err(CollectorError::Query(_)))));
}

#[test]
fn a_slow_tier_timeout_still_fails_the_sample() {
    assert!(matches!(
        classify_slow(Err::<(), _>(CollectorError::Timeout)),
        Err(CollectorError::Timeout)
    ));
}

#[test]
fn a_slow_tier_connection_loss_still_fails_the_sample() {
    assert!(matches!(
        classify_slow(Err::<(), _>(CollectorError::LostConnection)),
        Err(CollectorError::LostConnection)
    ));
}

#[test]
fn an_attempted_slow_tick_advances_last_slow_so_the_next_fast_tick_is_refused() {
    let mut last_slow = None;
    let attempted_at = now();

    assert!(take_slow_tick(&mut last_slow, attempted_at, Span::from_secs(10), false));
    assert_eq!(last_slow, Some(attempted_at));

    let one_fast_tick_later = later(attempted_at, 2);
    assert!(!take_slow_tick(
        &mut last_slow,
        one_fast_tick_later,
        Span::from_secs(10),
        false
    ));
    assert_eq!(last_slow, Some(attempted_at));
}

#[test]
fn the_first_sample_neither_attempts_nor_advances_last_slow() {
    let mut last_slow = None;
    assert!(!take_slow_tick(&mut last_slow, now(), Span::from_secs(10), true));
    assert_eq!(last_slow, None);
}

#[test]
fn a_tick_inside_the_interval_neither_attempts_nor_advances_last_slow() {
    let recent = earlier(now(), 3);
    let mut last_slow = Some(recent);
    assert!(!take_slow_tick(&mut last_slow, now(), Span::from_secs(10), false));
    assert_eq!(last_slow, Some(recent));
}

#[test]
fn a_slow_tick_exactly_one_interval_later_runs() {
    let at = now();
    assert!(is_slow_tick(Some(at), later(at, 10), Span::from_secs(10), false));
}

#[test]
fn a_clock_that_went_backwards_counts_as_no_time_passing() {
    let at = now();
    assert!(!is_slow_tick(Some(at), earlier(at, 60), Span::from_secs(10), false));
    assert!(is_slow_tick(Some(at), earlier(at, 60), Span::from_secs(0), false));
}

#[test]
fn every_error_reads_as_its_own_sentence() {
    assert_eq!(
        CollectorError::Connect("refused".into()).message(),
        "Could not connect: refused"
    );
    assert_eq!(
        CollectorError::Query("syntax error".into()).message(),
        "Query failed: syntax error"
    );
    assert_eq!(
        CollectorError::Timeout.message(),
        "The server did not respond within five seconds"
    );
    assert_eq!(
        CollectorError::LostConnection.message(),
        "The connection to the server was lost"
    );
}

#[test]
fn a_cancelled_statement_is_a_timeout_and_a_closed_connection_is_lost() {
    assert!(matches!(query_error(true, true, "x".into()), CollectorError::Timeout));
    assert!(matches!(query_error(false, true, "x".into()), CollectorError::LostConnection));
    match query_error(false, false, "relation does not exist".into()) {
        CollectorError::Query(detail) => assert_eq!(detail, "relation does not exist"),
        other => panic!("unexpected {other:?}"),
    }
}

#[test]
fn three_failed_samples_in_a_row_end_the_loop() {
    let mut state = SamplerState::new(true);
    assert_eq!(state.sample_failed(), None);
    assert_eq!(state.sample_failed(), None);
    assert_eq!(state.sample_failed(), Some(LoopExit::Failed { had_success: false }));
    assert_eq!(state.consecutive_failures, FAILURES_BEFORE_DISCONNECT);
}

#[test]
fn a_success_resets_the_failure_count_and_is_remembered() {
    let mut state = SamplerState::new(false);
    assert_eq!(state.sample_failed(), None);
    assert_eq!(state.sample_failed(), None);
    assert!(!state.sample_succeeded(now(), Span::from_secs(60)));
    assert_eq!(state.consecutive_failures, 0);
    assert_eq!(state.sample_failed(), None);
    assert_eq!(state.sample_failed(), None);
    assert_eq!(state.sample_failed(), Some(LoopExit::Failed { had_success: true }));
}

#[test]
fn the_first_tick_skips_the_slow_tier_and_the_second_runs_it() {
    let mut state = SamplerState::new(false);
    assert!(!state.begin_tick(now(), Span::from_secs(10)));
    assert!(!state.sample_succeeded(now(), Span::from_secs(60)));
    assert!(state.begin_tick(later(now(), 2), Span::from_secs(10)));
    assert_eq!(state.last_slow, Some(later(now(), 2)));
    assert!(!state.begin_tick(later(now(), 4), Span::from_secs(10)));
}

#[test]
fn history_is_written_at_once_and_then_once_per_interval() {
    let mut state = SamplerState::new(true);
    assert!(state.sample_succeeded(now(), Span::from_secs(60)));
    assert!(!state.sample_succeeded(later(now(), 30), Span::from_secs(60)));
    assert!(state.sample_succeeded(later(now(), 60), Span::from_secs(60)));
    assert_eq!(state.last_history, Some(later(now(), 60)));
}

#[test]
fn a_history_query_error_turns_history_off_but_a_timeout_does_not() {
    let mut state = SamplerState::new(true);
    assert_eq!(state.sample_failed(), None);
    state.history_write_failed(CollectorError::Timeout);
    assert!(state.history_on);
    assert_eq!(state.consecutive_failures, 1);
    state.history_write_failed(CollectorError::Query("permission denied".into()));
    assert!(!state.history_on);
    assert_eq!(state.consecutive_failures, 1);
    assert!(!state.sample_succeeded(later(now(), 600), Span::from_secs(60)));
}

#[test]
fn the_reconnect_wait_starts_over_after_a_connection_that_worked() {
    assert_eq!(failures_after_exit(7, true), 0);
    assert_eq!(reconnect_delay(0), Span::from_secs(1));
    assert_eq!(failures_after_exit(2, false), 3);
    assert_eq!(failures_after_exit(u32::MAX, false), u32::MAX);
    assert_eq!(failures_after_connect_error(0), 1);
    assert_eq!(reconnect_delay(1), Span::from_secs(1));
    assert_eq!(reconnect_delay(2), Span::from_secs(2));
    assert_eq!(reconnect_delay(6), Span::from_secs(30));
}

/// Runs the sample loop's decisions over `outcomes`, one tick per second;
/// gives the exit and the number of ticks it took.
fn run_ticks(outcomes: &[bool]) -> (Option<LoopExit>, usize) {
    let mut state = SamplerState::new(true);
    let mut at = now();
    for (k, ok) in outcomes.iter().enumerate() {
        let slow = state.begin_tick(at, Span { nanos: 10 * SECOND });
        if k == 0 {
            assert!(!slow, "the first sample never runs the slow tier");
        }
        if *ok {
            state.sample_succeeded(at, Span { nanos: 60 * SECOND });
        } else if let Some(exit) = state.sample_failed() {
            return (Some(exit), k + 1);
        }
        at = later(at, 1);
    }
    (None, outcomes.len())
}

#[test]
fn the_loop_gives_up_at_the_third_failure_in_a_row_and_a_success_resets_it() {
    assert_eq!(run_ticks(&[false, false, true, false, false, true]), (None, 6));
    assert_eq!(
        run_ticks(&[false, true, false, false, false, true]),
        (Some(LoopExit::Failed { had_success: true }), 5)
    );
    assert_eq!(
        run_ticks(&[false, false, false, true]),
        (Some(LoopExit::Failed { had_success: false }), 3)
    );
}

#[test]
fn the_backoff_follows_the_failures_in_a_row_and_restarts_after_a_working_connection() {
    let mut failures = 0u32;
    let mut waits = Vec::new();
    for worked in [false, false, false, true, false, false, false, false, false, false, false] {
        failures = if worked {
            failures_after_exit(failures, true)
        } else {
            failures_after_connect_error(failures)
        };
        waits.push(reconnect_delay(failures).nanos / SECOND);
    }
    assert_eq!(waits, vec![1, 2, 4, 1, 1, 2, 4, 8, 16, 30, 30]);
}
