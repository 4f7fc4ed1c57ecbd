//! The collector's decisions: when a tick runs the slow tier, when it writes
//! history, how a failure is classified, when the sample loop gives up on a
//! connection and how long it waits before connecting again.
//!
//! The loop itself, which talks to the server and sleeps, is driven from
//! outside: it reports each outcome here and acts on what it is told.

use vstd::prelude::*;

use crate::clock::{elapsed, Moment, Span, NANOS_PER_SECOND};
use crate::connection::params::HistoryMode;
use crate::history::{history_tick_due, is_history_tick};
use crate::text::append;

verus! {

/// A filesystem path, carried through unread.
#[verifier::external_type_specification]
#[verifier::external_body]
pub struct ExPathBuf(std::path::PathBuf);

/// Consecutive failed samples before the collector declares the connection lost.
pub const FAILURES_BEFORE_DISCONNECT: u32 = 3;

/// The statement that bounds every query, so a wedged server cannot hang
/// the sampler for ever.
pub const STATEMENT_TIMEOUT: &'static str = "SET statement_timeout = '5s'";

#[derive(Debug, Clone)]
pub enum CollectorError {
    Connect(String),
    Query(String),
    Timeout,
    LostConnection,
}

/// How an error reads to the user. None of them carries the connection's
/// parameters, only what the server or the driver said.
pub open spec fn error_text(error: CollectorError) -> Seq<char> {
    match error {
        CollectorError::Connect(detail) => "Could not connect: "@ + detail@,
        CollectorError::Query(detail) => "Query failed: "@ + detail@,
        CollectorError::Timeout => "The server did not respond within five seconds"@,
        CollectorError::LostConnection => "The connection to the server was lost"@,
    }
}

/// A timeout or a lost connection is the connection's problem; any other
/// error belongs to one query.
pub open spec fn is_connection_fault(error: CollectorError) -> bool {
    error is Timeout || error is LostConnection
}

impl CollectorError {
    /// The error as the user reads it.
    pub fn message(&self) -> (text: String)
        ensures
            text@ == error_text(*self),
    {
        let mut text = String::new();
        match self {
            CollectorError::Connect(detail) => {
                append(&mut text, "Could not connect: ");
                append(&mut text, detail.as_str());
            },
            CollectorError::Query(detail) => {
                append(&mut text, "Query failed: ");
                append(&mut text, detail.as_str());
            },
            CollectorError::Timeout => {
                append(&mut text, "The server did not respond within five seconds");
            },
            CollectorError::LostConnection => {
                append(&mut text, "The connection to the server was lost");
            },
        }
        text
    }
}

/// The error a failed query stands for: a cancelled statement is the
/// statement timeout firing, a closed connection is a lost one, and anything
/// else is the query's own failure, in the driver's words.
pub fn query_error(cancelled: bool, closed: bool, detail: String) -> (error: CollectorError)
    ensures
        error == (if cancelled {
            CollectorError::Timeout
        } else if closed {
            CollectorError::LostConnection
        } else {
            CollectorError::Query(detail)
        }),
{
    if cancelled {
        CollectorError::Timeout
    } else if closed {
        CollectorError::LostConnection
    } else {
        CollectorError::Query(detail)
    }
}

/// Seconds to wait after `consecutive_failures` failures in a row: 1s, 2s,
/// 4s, 8s, 16s, then 30s for ever.
pub open spec fn backoff_seconds(consecutive_failures: u32) -> nat {
    if consecutive_failures >= 5 {
        30
    } else if consecutive_failures == 4 {
        16
    } else if consecutive_failures == 3 {
        8
    } else if consecutive_failures == 2 {
        4
    } else if consecutive_failures == 1 {
        2
    } else {
        1
    }
}

/// 1s, 2s, 4s, 8s, 16s, then 30s for ever.
pub fn backoff_delay(consecutive_failures: u32) -> (delay: Span)
    ensures
        delay.nanos == backoff_seconds(consecutive_failures) * NANOS_PER_SECOND,
{
    let shift: u64 = if consecutive_failures < 16 {
        consecutive_failures as u64
    } else {
        16
    };
    let seconds: u64 = 1u64 << shift;
    proof {
        if shift == 0 {
            assert(1u64 << 0u64 == 1) by (bit_vector);
        } else if shift == 1 {
            assert(1u64 << 1u64 == 2) by (bit_vector);
        } else if shift == 2 {
            assert(1u64 << 2u64 == 4) by (bit_vector);
        } else if shift == 3 {
            assert(1u64 << 3u64 == 8) by (bit_vector);
        } else if shift == 4 {
            assert(1u64 << 4u64 == 16) by (bit_vector);
        } else {
            assert(1u64 << shift >= 32) by (bit_vector)
                requires
                    5 <= shift <= 16,
            ;
        }
    }
    let capped: u64 = if seconds < 30 {
        seconds
    } else {
        30
    };
    Span::from_secs(capped)
}

/// The wait doubles with each failure until it reaches thirty seconds, and
/// stays there.
pub proof fn lemma_backoff_doubles_then_caps(consecutive_failures: u32)
    ensures
        1 <= backoff_seconds(consecutive_failures) <= 30,
        consecutive_failures < u32::MAX ==> backoff_seconds((consecutive_failures + 1) as u32) == if 2
            * backoff_seconds(consecutive_failures) < 30 {
            2 * backoff_seconds(consecutive_failures)
        } else {
            30
        },
{
}

/// How the collector is configured for one connection.
#[derive(Debug)]
pub struct CollectorConfig {
    pub interval: Span,
    pub slow_interval: Span,
    pub statements_limit: i64,
    pub relations_limit: i64,
    pub history_mode: HistoryMode,
    pub history_interval: Span,
    pub history_retention_days: i64,
    pub history_top_queries: usize,
    pub server_id: String,
    pub local_db_path: std::path::PathBuf,
    pub preload_points: usize,
}

/// Whether a tick at `now` runs the slow tier: never on a connection's first
/// sample, which would leave the Overview blank until the heavy queries
/// returned; on the next tick when the slow tier has not run yet; and then
/// once `slow_interval` has passed since it last did.
pub open spec fn slow_tick_due(
    last_slow: Option<Moment>,
    now: Moment,
    slow_interval: Span,
    is_first_sample: bool,
) -> bool {
    !is_first_sample && match last_slow {
        None => true,
        Some(previous) => elapsed(previous, now) >= slow_interval.nanos,
    }
}

/// True when this tick should also run the slow tier.
pub fn is_slow_tick(
    last_slow: Option<Moment>,
    now: Moment,
    slow_interval: Span,
    is_first_sample: bool,
) -> (due: bool)
    ensures
        due == slow_tick_due(last_slow, now, slow_interval, is_first_sample),
{
    if is_first_sample {
        return false;
    }
    match last_slow {
        None => true,
        Some(previous) => now.duration_since(previous).nanos >= slow_interval.nanos,
    }
}

/// Decides whether this tick runs the slow tier, and records the attempt at
/// once: a slow tier that times out produces no snapshot, and recording it
/// only on success would retry the heavy queries on the very next tick.
pub fn take_slow_tick(
    last_slow: &mut Option<Moment>,
    now: Moment,
    slow_interval: Span,
    is_first_sample: bool,
) -> (attempt: bool)
    ensures
        attempt == slow_tick_due(*old(last_slow), now, slow_interval, is_first_sample),
        *final(last_slow) == if attempt {
            Some(now)
        } else {
            *old(last_slow)
        },
{
    let attempt = is_slow_tick(*last_slow, now, slow_interval, is_first_sample);
    if attempt {
        *last_slow = Some(now);
    }
    attempt
}

/// Once the slow tier has been attempted at `attempted_at`, no tick before
/// a full `slow_interval` has passed attempts it again.
pub proof fn lemma_attempt_holds_off_the_slow_tier(
    attempted_at: Moment,
    later: Moment,
    slow_interval: Span,
    is_first_sample: bool,
)
    requires
        later.nanos >= attempted_at.nanos,
        later.nanos - attempted_at.nanos < slow_interval.nanos,
    ensures
        !slow_tick_due(Some(attempted_at), later, slow_interval, is_first_sample),
{
}

/// A slow-tier result as the sample keeps it: a query error degrades one
/// page and is kept for it to show, while a timeout or a lost connection
/// fails the whole sample.
pub open spec fn slow_kept<T>(result: Result<T, CollectorError>) -> Result<Result<T, CollectorError>, CollectorError> {
    match result {
        Ok(value) => Ok(Ok(value)),
        Err(error) => if is_connection_fault(error) {
            Err(error)
        } else {
            Ok(Err(error))
        },
    }
}

/// Sorts a slow-tier result into what one page shows and what fails the
/// sample.
pub fn classify_slow<T>(result: Result<T, CollectorError>) -> (kept: Result<
    Result<T, CollectorError>,
    CollectorError,
>)
    ensures
        kept == slow_kept(result),
{
    match result {
        Ok(value) => Ok(Ok(value)),
        Err(error) => match error {
            CollectorError::Timeout | CollectorError::LostConnection => Err(error),
            _ => Ok(Err(error)),
        },
    }
}

/// What a failed history write means for the session.
#[derive(Debug, Clone, Copy, PartialEq, Eq, Structural)]
pub enum HistoryOutcome {
    /// The store or the role is at fault: history stops for this session.
    Disable,
    /// The connection is at fault: this write is skipped, and the next
    /// sample will surface the fault.
    SkipWrite,
}

/// A history write never fails the sample. A query error is a property of
/// the store or the role and turns history off; a timeout or a lost
/// connection only skips the write.
pub open spec fn history_outcome(error: CollectorError) -> HistoryOutcome {
    if is_connection_fault(error) {
        HistoryOutcome::SkipWrite
    } else {
        HistoryOutcome::Disable
    }
}

/// What a failed history write means for the session.
pub fn classify_history_error(error: CollectorError) -> (outcome: HistoryOutcome)
    ensures
        outcome == history_outcome(error),
{
    match error {
        CollectorError::Timeout | CollectorError::LostConnection => HistoryOutcome::SkipWrite,
        _ => HistoryOutcome::Disable,
    }
}

/// A history write and a slow-tier query draw the same line: an error that
/// turns history off is exactly one that the slow tier keeps for its page
/// rather than failing the sample.
pub proof fn lemma_history_and_slow_tier_agree<T>(error: CollectorError)
    ensures
        history_outcome(error) == HistoryOutcome::Disable <==> slow_kept(Err::<T, CollectorError>(error)) is Ok,
{
}

/// Why the sample loop handed control back.
#[derive(Debug, Clone, Copy, PartialEq, Eq, Structural)]
pub enum LoopExit {
    /// The controller asked the collector to stop, or dropped its handle.
    Stopped,
    /// Gave up after `FAILURES_BEFORE_DISCONNECT` failed samples in a row.
    /// `had_success` records whether any sample on this connection had
    /// succeeded, which decides whether the reconnect backoff starts over.
    Failed { had_success: bool },
}

/// What the sample loop remembers between the ticks of one connection.
#[derive(Debug, Clone, Copy, PartialEq, Eq, Structural)]
pub struct SamplerState {
    /// When the slow tier was last attempted.
    pub last_slow: Option<Moment>,
    /// When history was last written.
    pub last_history: Option<Moment>,
    pub consecutive_failures: u32,
    pub had_success: bool,
    pub is_first_sample: bool,
    /// Whether history is still being written on this connection.
    pub history_on: bool,
}

/// The state a tick at `now` leaves, and whether it runs the slow tier.
pub open spec fn tick_started(state: SamplerState, now: Moment, slow_interval: Span) -> (SamplerState, bool) {
    let slow = slow_tick_due(state.last_slow, now, slow_interval, state.is_first_sample);
    (SamplerState { last_slow: if slow { Some(now) } else { state.last_slow }, ..state }, slow)
}

/// The state a successful sample at `now` leaves, and whether history is
/// written for it. The history clock advances the moment the write is
/// decided, so a failing write is not retried on every tick.
pub open spec fn sample_ok(state: SamplerState, now: Moment, history_interval: Span) -> (SamplerState, bool) {
    let write = state.history_on && history_tick_due(state.last_history, now, history_interval);
    (
        SamplerState {
            last_history: if write { Some(now) } else { state.last_history },
            consecutive_failures: 0,
            had_success: true,
            is_first_sample: false,
            ..state
        },
        write,
    )
}

/// The state a failed sample leaves, and whether the loop gives up.
pub open spec fn sample_err(state: SamplerState) -> (SamplerState, Option<LoopExit>) {
    let failures = state.consecutive_failures + 1;
    (
        SamplerState { consecutive_failures: failures as u32, is_first_sample: false, ..state },
        if failures >= FAILURES_BEFORE_DISCONNECT {
            Some(LoopExit::Failed { had_success: state.had_success })
        } else {
            None
        },
    )
}

/// The state a failed history write leaves: history stops for the session
/// when the store or the role is at fault.
pub open spec fn history_failed(state: SamplerState, error: CollectorError) -> SamplerState {
    SamplerState {
        history_on: state.history_on && history_outcome(error) != HistoryOutcome::Disable,
        ..state
    }
}

impl SamplerState {
    /// The loop is still running: fewer failures in a row than it tolerates.
    pub open spec fn is_running(self) -> bool {
        self.consecutive_failures < FAILURES_BEFORE_DISCONNECT
    }

    /// The state of a freshly made connection.
    pub fn new(history_on: bool) -> (state: Self)
        ensures
            state == (SamplerState {
                last_slow: None,
                last_history: None,
                consecutive_failures: 0,
                had_success: false,
                is_first_sample: true,
                history_on,
            }),
    {
        SamplerState {
            last_slow: None,
            last_history: None,
            consecutive_failures: 0,
            had_success: false,
            is_first_sample: true,
            history_on,
        }
    }

    /// Starts a tick at `now`; true when it runs the slow tier.
    pub fn begin_tick(&mut self, now: Moment, slow_interval: Span) -> (slow: bool)
        ensures
            (*final(self), slow) == tick_started(*old(self), now, slow_interval),
    {
        take_slow_tick(&mut self.last_slow, now, slow_interval, self.is_first_sample)
    }

    /// Records a successful sample at `now`; true when history is written
    /// for it.
    pub fn sample_succeeded(&mut self, now: Moment, history_interval: Span) -> (write: bool)
        ensures
            (*final(self), write) == sample_ok(*old(self), now, history_interval),
    {
        self.consecutive_failures = 0;
        self.had_success = true;
        self.is_first_sample = false;
        let write = self.history_on && is_history_tick(self.last_history, now, history_interval);
        if write {
            self.last_history = Some(now);
        }
        write
    }

    /// Records a failed history write.
    pub fn history_write_failed(&mut self, error: CollectorError)
        ensures
            *final(self) == history_failed(*old(self), error),
    {
        if classify_history_error(error) == HistoryOutcome::Disable {
            self.history_on = false;
        }
    }

    /// Records a failed sample; `Some` when the loop gives up on the
    /// connection.
    pub fn sample_failed(&mut self) -> (exit: Option<LoopExit>)
        requires
            old(self).is_running(),
        ensures
            (*final(self), exit) == sample_err(*old(self)),
    {
        self.consecutive_failures = self.consecutive_failures + 1;
        self.is_first_sample = false;
        if self.consecutive_failures >= FAILURES_BEFORE_DISCONNECT {
            Some(LoopExit::Failed { had_success: self.had_success })
        } else {
            None
        }
    }
}

/// Three failed samples in a row end the loop, whatever came before; a
/// success in between starts the count again, and the exit then records that
/// the connection had worked.
pub proof fn lemma_three_failures_end_the_loop(state: SamplerState, now: Moment, history_interval: Span)
    requires
        state.is_running(),
    ensures
        ({
            let (s0, _) = sample_ok(state, now, history_interval);
            let (s1, e1) = sample_err(s0);
            let (s2, e2) = sample_err(s1);
            let (s3, e3) = sample_err(s2);
            &&& e1 is None
            &&& e2 is None
            &&& e3 == Some(LoopExit::Failed { had_success: true })
        }),
{
}

/// A failed history write never counts against the connection: it leaves
/// the failure count, the slow-tier clock and everything else but the
/// history switch as they were.
pub proof fn lemma_history_never_fails_a_sample(state: SamplerState, error: CollectorError)
    ensures
        history_failed(state, error).consecutive_failures == state.consecutive_failures,
        history_failed(state, error).had_success == state.had_success,
        history_failed(state, error).last_slow == state.last_slow,
        history_failed(state, error).last_history == state.last_history,
        is_connection_fault(error) ==> history_failed(state, error).history_on == state.history_on,
{
}

/// A connection on which no sample ever succeeded is given up after three
/// failures, and says so.
pub proof fn lemma_a_connection_that_never_worked(history_on: bool)
    ensures
        ({
            let fresh = SamplerState {
                last_slow: None,
                last_history: None,
                consecutive_failures: 0,
                had_success: false,
                is_first_sample: true,
                history_on,
            };
            let (s1, e1) = sample_err(fresh);
            let (s2, e2) = sample_err(s1);
            let (s3, e3) = sample_err(s2);
            &&& e1 is None
            &&& e2 is None
            &&& e3 == Some(LoopExit::Failed { had_success: false })
        }),
{
}

/// The reconnect counter once the sample loop has given up on a connection:
/// a connection that had worked starts the backoff over.
pub open spec fn failures_after(consecutive_failures: u32, had_success: bool) -> u32 {
    if had_success {
        0
    } else if consecutive_failures < u32::MAX {
        (consecutive_failures + 1) as u32
    } else {
        u32::MAX
    }
}

/// The reconnect counter once the sample loop has given up on a connection.
pub fn failures_after_exit(consecutive_failures: u32, had_success: bool) -> (failures: u32)
    ensures
        failures == failures_after(consecutive_failures, had_success),
{
    if had_success {
        0
    } else {
        consecutive_failures.saturating_add(1)
    }
}

/// The reconnect counter after an attempt that could not connect at all.
pub fn failures_after_connect_error(consecutive_failures: u32) -> (failures: u32)
    ensures
        failures == failures_after(consecutive_failures, false),
{
    consecutive_failures.saturating_add(1)
}

/// The wait, in nanoseconds, before connecting again after
/// `consecutive_failures` failed connections: the first failure waits one
/// second, and so does a connection that had worked.
pub open spec fn reconnect_wait(consecutive_failures: u32) -> int {
    backoff_seconds(
        if consecutive_failures > 0 {
            (consecutive_failures - 1) as u32
        } else {
            0u32
        },
    ) * NANOS_PER_SECOND
}

/// How long to wait before connecting again after `consecutive_failures`
/// failed connections: the first failure waits one second.
pub fn reconnect_delay(consecutive_failures: u32) -> (delay: Span)
    ensures
        delay.nanos == reconnect_wait(consecutive_failures),
{
    backoff_delay(consecutive_failures.saturating_sub(1))
}

/// A run of ticks on one connection: at each, the moment it starts and
/// whether its sample succeeded. Gives the state the run leaves, the exit
/// if the loop gave up, and how many ticks it took.
pub open spec fn sampler_run(
    state: SamplerState,
    ticks: Seq<(Moment, bool)>,
    slow_interval: Span,
    history_interval: Span,
) -> (SamplerState, Option<LoopExit>, nat)
    decreases ticks.len(),
{
    if ticks.len() == 0 {
        (state, None, 0)
    } else {
        let (started, _) = tick_started(state, ticks[0].0, slow_interval);
        if ticks[0].1 {
            let (after, _) = sample_ok(started, ticks[0].0, history_interval);
            let (last, exit, used) = sampler_run(after, ticks.drop_first(), slow_interval, history_interval);
            (last, exit, used + 1)
        } else {
            let (after, exit) = sample_err(started);
            if exit is Some {
                (after, exit, 1)
            } else {
                let (last, exit, used) = sampler_run(after, ticks.drop_first(), slow_interval, history_interval);
                (last, exit, used + 1)
            }
        }
    }
}

/// Tick `u - 1` of `ticks` is the third failure in a row, counting the
/// `failed_before` failures in a row the run started with.
pub open spec fn third_failure_at(failed_before: int, ticks: Seq<(Moment, bool)>, u: int) -> bool {
    &&& 1 <= u <= ticks.len()
    &&& forall|i: int| u - 3 <= i < u && 0 <= i ==> !(#[trigger] ticks[i]).1
    &&& (u >= 3 || failed_before >= 3 - u)
}

proof fn lemma_third_failure_after_success(c: int, ticks: Seq<(Moment, bool)>)
    requires
        ticks.len() > 0,
        ticks[0].1,
    ensures
        forall|u: int| #[trigger] third_failure_at(c, ticks, u) <==> u >= 2 && third_failure_at(0, ticks.drop_first(), u - 1),
{
    let rest = ticks.drop_first();
    assert forall|u: int| #[trigger] third_failure_at(c, ticks, u) <==> u >= 2 && third_failure_at(0, rest, u - 1) by {
        if third_failure_at(c, ticks, u) {
            if u <= 3 {
                assert(!ticks[0].1);
            }
            assert forall|i: int| u - 4 <= i < u - 1 && 0 <= i implies !(#[trigger] rest[i]).1 by {
                assert(rest[i] == ticks[i + 1]);
            }
        }
        if u >= 2 && third_failure_at(0, rest, u - 1) {
            assert forall|i: int| u - 3 <= i < u && 0 <= i implies !(#[trigger] ticks[i]).1 by {
                assert(ticks[i] == rest[i - 1]);
            }
        }
    }
}

proof fn lemma_third_failure_after_failure(c: int, ticks: Seq<(Moment, bool)>)
    requires
        ticks.len() > 0,
        !ticks[0].1,
        0 <= c < 2,
    ensures
        forall|u: int| #[trigger] third_failure_at(c, ticks, u) <==> u >= 2 && third_failure_at(c + 1, ticks.drop_first(), u - 1),
{
    let rest = ticks.drop_first();
    assert forall|u: int| #[trigger] third_failure_at(c, ticks, u) <==> u >= 2 && third_failure_at(c + 1, rest, u - 1) by {
        if third_failure_at(c, ticks, u) {
            assert forall|i: int| u - 4 <= i < u - 1 && 0 <= i implies !(#[trigger] rest[i]).1 by {
                assert(rest[i] == ticks[i + 1]);
            }
        }
        if u >= 2 && third_failure_at(c + 1, rest, u - 1) {
            assert forall|i: int| u - 3 <= i < u && 0 <= i implies !(#[trigger] ticks[i]).1 by {
                if i > 0 {
                    assert(ticks[i] == rest[i - 1]);
                }
            }
        }
    }
}

/// Over any run of ticks, the sample loop gives up exactly at the third
/// failed sample in a row, counting the failures in a row it started with,
/// and a successful sample starts the count again. It then reports whether
/// the connection had worked: before the run, or at some tick of it. Until
/// then it keeps sampling.
pub proof fn lemma_the_sampler_gives_up_at_the_third_failure_in_a_row(
    state: SamplerState,
    ticks: Seq<(Moment, bool)>,
    slow_interval: Span,
    history_interval: Span,
)
    requires
        state.is_running(),
    ensures
        ({
            let (last, exit, used) = sampler_run(state, ticks, slow_interval, history_interval);
            let c = state.consecutive_failures as int;
            &&& exit is Some <==> exists|u: int| third_failure_at(c, ticks, u)
            &&& exit is Some ==> third_failure_at(c, ticks, used as int)
            &&& exit is Some ==> forall|u: int| 1 <= u < used ==> !third_failure_at(c, ticks, u)
            &&& exit is Some ==> exit == Some(
                LoopExit::Failed { had_success: state.had_success || exists|j: int| 0 <= j < used && (#[trigger] ticks[j]).1 },
            )
            &&& exit is None ==> used == ticks.len() && last.is_running()
        }),
    decreases ticks.len(),
{
    let c = state.consecutive_failures as int;
    if ticks.len() > 0 {
        let rest = ticks.drop_first();
        let (started, _) = tick_started(state, ticks[0].0, slow_interval);
        if ticks[0].1 {
            let (after, _) = sample_ok(started, ticks[0].0, history_interval);
            lemma_the_sampler_gives_up_at_the_third_failure_in_a_row(after, rest, slow_interval, history_interval);
            lemma_third_failure_after_success(c, ticks);
            let (last, exit, used) = sampler_run(after, rest, slow_interval, history_interval);
            if exists|u: int| third_failure_at(c, ticks, u) {
                let u = choose|u: int| third_failure_at(c, ticks, u);
                assert(third_failure_at(0, rest, u - 1));
            }
            if exists|u: int| third_failure_at(0, rest, u) {
                let u = choose|u: int| third_failure_at(0, rest, u);
                assert(third_failure_at(c, ticks, u + 1));
            }
            if exit is Some {
                assert(third_failure_at(c, ticks, used as int + 1));
                assert forall|u: int| 1 <= u < used + 1 implies !third_failure_at(c, ticks, u) by {
                    if u >= 2 {
                        assert(!third_failure_at(0, rest, u - 1));
                    }
                }
                assert((#[trigger] ticks[0]).1);
            }
        } else {
            let (after, exit0) = sample_err(started);
            if c + 1 >= 3 {
                assert(third_failure_at(c, ticks, 1));
                assert forall|j: int| 0 <= j < 1 implies !(#[trigger] ticks[j]).1 by {}
            } else {
                lemma_the_sampler_gives_up_at_the_third_failure_in_a_row(after, rest, slow_interval, history_interval);
                lemma_third_failure_after_failure(c, ticks);
                let c1 = c + 1;
                let (last, exit, used) = sampler_run(after, rest, slow_interval, history_interval);
                if exists|u: int| third_failure_at(c, ticks, u) {
                    let u = choose|u: int| third_failure_at(c, ticks, u);
                    assert(third_failure_at(c1, rest, u - 1));
                }
                if exists|u: int| third_failure_at(c1, rest, u) {
                    let u = choose|u: int| third_failure_at(c1, rest, u);
                    assert(third_failure_at(c, ticks, u + 1));
                }
                if exit is Some {
                    assert(third_failure_at(c, ticks, used as int + 1));
                    assert forall|u: int| 1 <= u < used + 1 implies !third_failure_at(c, ticks, u) by {
                        if u >= 2 {
                            assert(!third_failure_at(c1, rest, u - 1));
                        }
                    }
                    assert((exists|j: int| 0 <= j < used + 1 && (#[trigger] ticks[j]).1) <==> (exists|j: int|
                        0 <= j < used && (#[trigger] rest[j]).1)) by {
                        if exists|j: int| 0 <= j < used + 1 && (#[trigger] ticks[j]).1 {
                            let j = choose|j: int| 0 <= j < used + 1 && (#[trigger] ticks[j]).1;
                            assert(rest[j - 1] == ticks[j]);
                        }
                        if exists|j: int| 0 <= j < used && (#[trigger] rest[j]).1 {
                            let j = choose|j: int| 0 <= j < used && (#[trigger] rest[j]).1;
                            assert(rest[j] == ticks[j + 1]);
                        }
                    }
                }
            }
        }
    }
}

/// The reconnect counter after a run of connection attempts, from `start`:
/// each entry says whether that connection worked, that is, whether a sample
/// on it succeeded before it was given up. An attempt that could not connect
/// at all did not work.
pub open spec fn failures_after_attempts(start: u32, worked: Seq<bool>) -> u32
    decreases worked.len(),
{
    if worked.len() == 0 {
        start
    } else {
        failures_after(failures_after_attempts(start, worked.drop_last()), worked.last())
    }
}

/// How many attempts at the end of `worked` failed in a row.
pub open spec fn failed_in_a_row(worked: Seq<bool>) -> nat
    decreases worked.len(),
{
    if worked.len() == 0 || worked.last() {
        0
    } else {
        failed_in_a_row(worked.drop_last()) + 1
    }
}

/// Over any run of connection attempts since the collector started, the
/// counter is the number of attempts at the end that failed in a row (held
/// at `u32::MAX`), so a connection that worked starts the backoff over. The
/// wait before the next attempt is then one second after a connection that
/// worked or before any failure, and after the `n`th failure in a row 1s, 2s,
/// 4s, 8s, 16s, then 30s for ever.
pub proof fn lemma_reconnect_backoff_over_any_run(worked: Seq<bool>)
    ensures
        failures_after_attempts(0, worked) as int == if failed_in_a_row(worked) <= u32::MAX {
            failed_in_a_row(worked) as int
        } else {
            u32::MAX as int
        },
        failed_in_a_row(worked) == 0 ==> reconnect_wait(failures_after_attempts(0, worked)) == NANOS_PER_SECOND,
        1 <= failed_in_a_row(worked) <= u32::MAX ==> reconnect_wait(failures_after_attempts(0, worked))
            == backoff_seconds((failed_in_a_row(worked) - 1) as u32) * NANOS_PER_SECOND,
        failed_in_a_row(worked) >= 6 ==> reconnect_wait(failures_after_attempts(0, worked)) == 30 * NANOS_PER_SECOND,
    decreases worked.len(),
{
    if worked.len() > 0 {
        lemma_reconnect_backoff_over_any_run(worked.drop_last());
    }
}

} // verus!
