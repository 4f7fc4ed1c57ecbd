//! Which collector's events the window still listens to.

use vstd::prelude::*;

use crate::clock::Span;
use crate::connection::probe::{ServerInfo, MIN_SUPPORTED_VERSION};
use crate::text::append;

verus! {

/// Events from a superseded collector must be discarded: the old thread
/// keeps draining for a moment after it is told to stop, and its final
/// `Disconnected` would otherwise be applied to whichever server is now
/// selected. An event is current when it carries the generation of the
/// latest selection.
pub fn is_current(event_generation: u64, current_generation: u64) -> (current: bool)
    ensures
        current == (event_generation == current_generation),
{
    event_generation == current_generation
}

/// How the connection to the selected server stands, as its sidebar row
/// shows it.
#[derive(Debug, Clone, Copy, PartialEq, Eq, Structural)]
pub enum ConnectionState {
    Disconnected,
    Connecting,
    Connected,
    Failed,
}

/// The symbolic icon a sidebar row shows for its connection state.
pub open spec fn icon_for(state: ConnectionState) -> Seq<char> {
    match state {
        ConnectionState::Disconnected => "media-playback-stop-symbolic"@,
        ConnectionState::Connecting => "content-loading-symbolic"@,
        ConnectionState::Connected => "media-record-symbolic"@,
        ConnectionState::Failed => "dialog-warning-symbolic"@,
    }
}

impl ConnectionState {
    /// The symbolic icon a sidebar row shows for this state.
    pub fn icon_name(self) -> (icon: &'static str)
        ensures
            icon@ == icon_for(self),
    {
        match self {
            ConnectionState::Disconnected => "media-playback-stop-symbolic",
            ConnectionState::Connecting => "content-loading-symbolic",
            ConnectionState::Connected => "media-record-symbolic",
            ConnectionState::Failed => "dialog-warning-symbolic",
        }
    }
}

/// The warning for a server older than the supported floor, which stays up
/// for as long as the connection does.
pub open spec fn floor_warning_text(info: ServerInfo) -> Option<Seq<char>> {
    if info.version_num < MIN_SUPPORTED_VERSION {
        Some(
            "PostgreSQL "@ + info.version_display@
                + " is older than the supported floor of 14. Some statistics may be missing."@,
        )
    } else {
        None
    }
}

/// The warning for a server older than the supported floor, if it is.
pub fn floor_warning(info: &ServerInfo) -> (warning: Option<String>)
    ensures
        warning.is_some() == floor_warning_text(*info).is_some(),
        warning.is_some() ==> warning.unwrap()@ == floor_warning_text(*info).unwrap(),
{
    if info.is_below_floor() {
        let mut text = String::new();
        append(&mut text, "PostgreSQL ");
        append(&mut text, info.version_display.as_str());
        append(&mut text, " is older than the supported floor of 14. Some statistics may be missing.");
        Some(text)
    } else {
        None
    }
}

/// What the collector reports, as far as the error banner and the sidebar
/// row read it.
pub enum StatusEvent {
    Connecting,
    /// Connected; `floor_warning` is set when the server predates the
    /// supported floor.
    Connected { floor_warning: Option<String> },
    Sample,
    /// A failed sample or connection attempt, as the user reads it.
    Error(String),
    Disconnected,
}

/// The window's error banner: whether it is up, what it last said, and the
/// below-floor warning that the connection keeps for as long as it lasts.
#[derive(Debug)]
pub struct StatusBanner {
    pub revealed: bool,
    pub title: String,
    pub floor_warning: Option<String>,
}

/// The banner after `event`, and the state the sidebar row shows. A
/// successful sample clears a transient error but never the below-floor
/// warning, which is a property of the server: it is put back instead.
pub open spec fn banner_after(banner: StatusBanner, event: StatusEvent) -> (StatusBanner, ConnectionState) {
    match event {
        StatusEvent::Connecting => (StatusBanner { revealed: false, ..banner }, ConnectionState::Connecting),
        StatusEvent::Connected { floor_warning } => match floor_warning {
            Some(message) => (
                StatusBanner { revealed: true, title: message, floor_warning: Some(message) },
                ConnectionState::Connected,
            ),
            None => (StatusBanner { revealed: false, title: banner.title, floor_warning: None }, ConnectionState::Connected),
        },
        StatusEvent::Sample => match banner.floor_warning {
            Some(message) => (StatusBanner { revealed: true, title: message, ..banner }, ConnectionState::Connected),
            None => (StatusBanner { revealed: false, ..banner }, ConnectionState::Connected),
        },
        StatusEvent::Error(message) => (StatusBanner { revealed: true, title: message, ..banner }, ConnectionState::Failed),
        StatusEvent::Disconnected => (banner, ConnectionState::Disconnected),
    }
}

impl StatusBanner {
    /// A banner that is down and has said nothing.
    pub fn new() -> (banner: Self)
        ensures
            !banner.revealed,
            banner.title@ == Seq::<char>::empty(),
            banner.floor_warning is None,
    {
        StatusBanner { revealed: false, title: String::new(), floor_warning: None }
    }

    /// Another server was selected: the below-floor warning belonged to the
    /// one just left and must not survive onto the next.
    pub fn server_selected(&mut self)
        ensures
            *final(self) == (StatusBanner { floor_warning: None, ..*old(self) }),
    {
        self.floor_warning = None;
    }

    /// Applies one collector event; returns the state for the sidebar row.
    pub fn apply(&mut self, event: StatusEvent) -> (state: ConnectionState)
        ensures
            (*final(self), state) == banner_after(*old(self), event),
    {
        match event {
            StatusEvent::Connecting => {
                self.revealed = false;
                ConnectionState::Connecting
            },
            StatusEvent::Connected { floor_warning } => {
                match floor_warning {
                    Some(message) => {
                        self.revealed = true;
                        self.title = message.clone();
                        self.floor_warning = Some(message);
                    },
                    None => {
                        self.revealed = false;
                        self.floor_warning = None;
                    },
                }
                ConnectionState::Connected
            },
            StatusEvent::Sample => {
                match &self.floor_warning {
                    Some(message) => {
                        self.title = message.clone();
                        self.revealed = true;
                    },
                    None => {
                        self.revealed = false;
                    },
                }
                ConnectionState::Connected
            },
            StatusEvent::Error(message) => {
                self.revealed = true;
                self.title = message;
                ConnectionState::Failed
            },
            StatusEvent::Disconnected => ConnectionState::Disconnected,
        }
    }
}

/// A successful sample never hides the below-floor warning: whatever the
/// banner said before, it is up and says the warning afterwards.
pub proof fn lemma_samples_keep_the_floor_warning(banner: StatusBanner, message: String)
    requires
        banner.floor_warning == Some(message),
    ensures
        banner_after(banner, StatusEvent::Sample).0.revealed,
        banner_after(banner, StatusEvent::Sample).0.title == message,
        banner_after(banner, StatusEvent::Sample).0.floor_warning == Some(message),
{
}

/// A warning about one server never reaches the next: once another server
/// is selected, its first successful sample takes the banner down.
pub proof fn lemma_a_warning_stays_with_its_server(banner: StatusBanner)
    ensures
        !banner_after(StatusBanner { floor_warning: None, ..banner }, StatusEvent::Sample).0.revealed,
{
}

/// On a server above the floor, the next successful sample takes down
/// whatever error the banner showed.
pub proof fn lemma_a_sample_clears_a_transient_error(banner: StatusBanner, error: String)
    requires
        banner.floor_warning is None,
    ensures
        !banner_after(banner_after(banner, StatusEvent::Error(error)).0, StatusEvent::Sample).0.revealed,
{
}

/// Shortest fast-tier interval the window asks of a collector, whatever the
/// stored setting says.
pub const MIN_SAMPLE_INTERVAL_MS: i32 = 500;

/// Shortest slow-tier interval.
pub const MIN_SLOW_SAMPLE_INTERVAL_MS: i32 = 2000;

/// Fewest rows the statements and relations queries are asked for.
pub const MIN_ROW_LIMIT: i32 = 10;

/// `v`, raised to `floor` where it is lower.
pub open spec fn at_least(v: int, floor: int) -> int {
    if v < floor {
        floor
    } else {
        v
    }
}

/// What a selected server's collector is told of the stored settings.
#[derive(Debug, Clone, Copy, PartialEq, Eq)]
pub struct SamplingSettings {
    pub interval: Span,
    pub slow_interval: Span,
    pub statements_limit: i64,
    pub relations_limit: i64,
}

/// The stored settings, each raised to its floor: a hand-edited setting of
/// zero or less must not make the collector spin or ask for no rows.
pub fn sampling_settings(
    sample_interval_ms: i32,
    slow_sample_interval_ms: i32,
    statements_limit: i32,
    relations_limit: i32,
) -> (settings: SamplingSettings)
    ensures
        settings.interval.nanos == at_least(sample_interval_ms as int, MIN_SAMPLE_INTERVAL_MS as int) * 1_000_000,
        settings.slow_interval.nanos == at_least(slow_sample_interval_ms as int, MIN_SLOW_SAMPLE_INTERVAL_MS as int) * 1_000_000,
        settings.statements_limit == at_least(statements_limit as int, MIN_ROW_LIMIT as int),
        settings.relations_limit == at_least(relations_limit as int, MIN_ROW_LIMIT as int),
{
    let fast: i32 = if sample_interval_ms < MIN_SAMPLE_INTERVAL_MS { MIN_SAMPLE_INTERVAL_MS } else { sample_interval_ms };
    let slow: i32 = if slow_sample_interval_ms < MIN_SLOW_SAMPLE_INTERVAL_MS {
        MIN_SLOW_SAMPLE_INTERVAL_MS
    } else {
        slow_sample_interval_ms
    };
    let statements: i32 = if statements_limit < MIN_ROW_LIMIT { MIN_ROW_LIMIT } else { statements_limit };
    let relations: i32 = if relations_limit < MIN_ROW_LIMIT { MIN_ROW_LIMIT } else { relations_limit };
    SamplingSettings {
        interval: Span::from_millis(fast as u64),
        slow_interval: Span::from_millis(slow as u64),
        statements_limit: statements as i64,
        relations_limit: relations as i64,
    }
}

/// How many points the Overview graphs keep: the stored setting, at least one.
pub fn graph_points(stored: i32) -> (points: u32)
    ensures
        points == at_least(stored as int, 1),
{
    if stored < 1 {
        1
    } else {
        stored as u32
    }
}

} // verus!
