//! Reading the connect-time probe: server version, visibility, extension
//! availability, and the actions the role may take.

use vstd::prelude::*;

use crate::text::{chars_of, parse_u32_chars, push_char, write_signed};

verus! {

/// PostgreSQL 14. Connection is never refused on version grounds; pages that
/// need a newer server gate themselves.
pub const MIN_SUPPORTED_VERSION: i32 = 140000;

#[derive(Debug, Clone, Copy, PartialEq, Eq)]
pub enum PrivilegeLevel {
    Superuser,
    Monitor,
    Limited,
}

/// The visibility level the probe flags describe.
pub open spec fn privilege_of(is_superuser: bool, is_monitor: bool) -> PrivilegeLevel {
    if is_superuser {
        PrivilegeLevel::Superuser
    } else if is_monitor {
        PrivilegeLevel::Monitor
    } else {
        PrivilegeLevel::Limited
    }
}

impl PrivilegeLevel {
    pub fn classify(is_superuser: bool, is_monitor: bool) -> (r: Self)
        ensures
            r == privilege_of(is_superuser, is_monitor),
    {
        if is_superuser {
            PrivilegeLevel::Superuser
        } else if is_monitor {
            PrivilegeLevel::Monitor
        } else {
            PrivilegeLevel::Limited
        }
    }

    /// True when PostgreSQL will return NULL query text for backends owned by
    /// other users, which the window must explain rather than silently render
    /// as blanks.
    pub fn hides_other_sessions(&self) -> (r: bool)
        ensures
            r == (*self is Limited),
    {
        match self {
            PrivilegeLevel::Limited => true,
            _ => false,
        }
    }
}

/// Only a role that is neither superuser nor a member of `pg_monitor` has
/// other users' sessions hidden from it.
pub proof fn lemma_hidden_sessions_need_no_privilege(is_superuser: bool, is_monitor: bool)
    ensures
        (privilege_of(is_superuser, is_monitor) is Limited) == (!is_superuser && !is_monitor),
{
}

/// The `pg_stat_statements` columns this project reads — `total_exec_time`
/// and `mean_exec_time` — arrived in extension version 1.8. A server at or
/// above the PostgreSQL 14 floor can still carry 1.7 through a `pg_upgrade`
/// that never ran `ALTER EXTENSION … UPDATE`.
pub const MINIMUM_STATEMENTS_VERSION: (u32, u32) = (1, 8);

#[derive(Debug, Clone, PartialEq, Eq)]
pub enum StatementsAvailability {
    Available { version: String },
    TooOld { version: String },
    NotInstalled,
}

/// An extension version as `major.minor`, compared per component: the first
/// two `.`-separated pieces read as `u32`, a missing minor reading as 0.
pub open spec fn extension_version(version: Seq<char>) -> Option<(u32, u32)> {
    let parts = crate::text::split_on(version, '.');
    let major = crate::text::parse_u32(parts[0]);
    let minor = if parts.len() > 1 {
        crate::text::parse_u32(parts[1])
    } else {
        Some(0u32)
    };
    if major.is_some() && minor.is_some() {
        Some((major.unwrap(), minor.unwrap()))
    } else {
        None
    }
}

/// Whether an installed extension version is at least 1.8, numerically per
/// component. An unreadable version never is.
pub open spec fn meets_statements_floor(version: Seq<char>) -> bool {
    match extension_version(version) {
        Some((major, minor)) => major > 1 || (major == 1 && minor >= 8),
        None => false,
    }
}

impl StatementsAvailability {
    pub fn classify(extversion: Option<&str>) -> (r: Self)
        ensures
            match r {
                StatementsAvailability::Available { version } => extversion.is_some()
                    && version@ == extversion.unwrap()@ && meets_statements_floor(
                    extversion.unwrap()@,
                ),
                StatementsAvailability::TooOld { version } => extversion.is_some() && version@
                    == extversion.unwrap()@ && !meets_statements_floor(extversion.unwrap()@),
                StatementsAvailability::NotInstalled => extversion.is_none(),
            },
    {
        let version = match extversion {
            None => {
                return StatementsAvailability::NotInstalled;
            },
            Some(version) => version,
        };
        let parsed = parse_extension_version(version);
        let (floor_major, floor_minor) = MINIMUM_STATEMENTS_VERSION;
        let meets = match parsed {
            Some((major, minor)) => major > floor_major || (major == floor_major && minor
                >= floor_minor),
            None => false,
        };
        if meets {
            StatementsAvailability::Available { version: String::from_str(version) }
        } else {
            StatementsAvailability::TooOld { version: String::from_str(version) }
        }
    }

    pub fn is_available(&self) -> (r: bool)
        ensures
            r == (*self is Available),
    {
        match self {
            StatementsAvailability::Available { .. } => true,
            _ => false,
        }
    }
}

/// Extension versions are `major.minor`. Comparison must be numeric per
/// component: as text "1.10" sorts before "1.8", which would reject an
/// extension newer than the floor.
pub fn parse_extension_version(version: &str) -> (r: Option<(u32, u32)>)
    ensures
        r == extension_version(version@),
{
    let chars = chars_of(version);
    let mut major_part: Vec<char> = Vec::new();
    let mut minor_part: Vec<char> = Vec::new();
    let mut separators: usize = 0;
    let mut k: usize = 0;
    proof {
        reveal_with_fuel(crate::text::split_on, 1);
    }
    assert(chars@.take(0) =~= Seq::<char>::empty());
    while k < chars.len()
        invariant
            k <= chars@.len(),
            chars@ == version@,
            ({
                let parts = crate::text::split_on(chars@.take(k as int), '.');
                &&& parts.len() >= 1
                &&& parts[0] == major_part@
                &&& separators <= 2
                &&& separators == 0 ==> parts.len() == 1 && minor_part@ == Seq::<char>::empty()
                &&& separators == 1 ==> parts.len() == 2 && parts[1] == minor_part@
                &&& separators == 2 ==> parts.len() >= 3 && parts[1] == minor_part@
            }),
        decreases chars@.len() - k,
    {
        let c = chars[k];
        let ghost prev = chars@.take(k as int);
        let ghost next = chars@.take(k + 1);
        assert(next.drop_last() =~= prev);
        assert(next.last() == c);
        if c == '.' {
            if separators < 2 {
                separators = separators + 1;
            }
        } else if separators == 0 {
            major_part.push(c);
        } else if separators == 1 {
            minor_part.push(c);
        }
        proof {
            let parts = crate::text::split_on(prev, '.');
            let after = crate::text::split_on(next, '.');
            if c != '.' {
                assert(after == parts.update(parts.len() - 1, parts.last().push(c)));
            }
        }
        k = k + 1;
    }
    assert(chars@.take(chars@.len() as int) =~= chars@);
    let major = parse_u32_chars(&major_part);
    let minor = if separators >= 1 {
        parse_u32_chars(&minor_part)
    } else {
        Some(0u32)
    };
    match (major, minor) {
        (Some(major), Some(minor)) => Some((major, minor)),
        _ => None,
    }
}

/// What the connected role may *do*, as distinct from what it may *see*.
///
/// `PrivilegeLevel` answers visibility and drives the window banner; it is the
/// wrong authority for actions in both directions. `pg_monitor` grants no
/// right to signal a backend, and a plain role granted `pg_signal_backend`, or
/// one that merely owns the table it wants to ANALYZE, may act without holding
/// either level.
#[derive(Debug, Clone, Copy, PartialEq, Eq)]
pub struct Capabilities {
    pub signal_backend: bool,
    pub reload_conf: bool,
    pub reset_statements: bool,
    pub maintain: bool,
}

impl Default for Capabilities {
    /// No capability at all, as before any probe.
    fn default() -> (r: Self)
        ensures
            !r.signal_backend && !r.reload_conf && !r.reset_statements && !r.maintain,
    {
        Capabilities { signal_backend: false, reload_conf: false, reset_statements: false, maintain: false }
    }
}

impl Capabilities {
    /// SQL NULL — an absent extension, an absent `pg_maintain` role — means
    /// the capability could not be established, which is never permission.
    pub fn from_flags(
        signal_backend: Option<bool>,
        reload_conf: Option<bool>,
        reset_statements: Option<bool>,
        maintain: Option<bool>,
    ) -> (r: Self)
        ensures
            r.signal_backend == (signal_backend == Some(true)),
            r.reload_conf == (reload_conf == Some(true)),
            r.reset_statements == (reset_statements == Some(true)),
            r.maintain == (maintain == Some(true)),
    {
        Capabilities {
            signal_backend: flag(signal_backend),
            reload_conf: flag(reload_conf),
            reset_statements: flag(reset_statements),
            maintain: flag(maintain),
        }
    }
}

fn flag(value: Option<bool>) -> (r: bool)
    ensures
        r == (value == Some(true)),
{
    match value {
        Some(b) => b,
        None => false,
    }
}

#[derive(Debug, Clone, PartialEq, Eq)]
pub struct ServerInfo {
    pub version_num: i32,
    pub version_display: String,
    pub privilege: PrivilegeLevel,
    pub statements: StatementsAvailability,
    pub capabilities: Capabilities,
}

impl ServerInfo {
    /// True when the server predates the supported floor. Callers warn; they
    /// never refuse the connection — pages that need a newer server gate
    /// themselves.
    pub fn is_below_floor(&self) -> (r: bool)
        ensures
            r == (self.version_num < MIN_SUPPORTED_VERSION),
    {
        self.version_num < MIN_SUPPORTED_VERSION
    }
}

/// The quotient of `n / 10000` as Rust's integer division truncates it.
pub open spec fn major_of(n: int) -> int {
    if n >= 0 {
        n / 10000
    } else {
        -((-n) / 10000)
    }
}

/// `MMmmmm` rendered as `major.minor`, with Rust's truncating `/` and `%`.
pub open spec fn version_text(n: int) -> Seq<char> {
    crate::text::decimal(major_of(n)) + seq!['.'] + crate::text::decimal(n - major_of(n) * 10000)
}

/// PostgreSQL 10 and later encode the version as MMmmmm: major * 10000 + minor.
pub fn format_version(version_num: i32) -> (r: String)
    ensures
        r@ == version_text(version_num as int),
{
    let n = version_num as i64;
    let major: i64 = if n >= 0 {
        n / 10000
    } else {
        -((-n) / 10000)
    };
    let minor: i64 = n - major * 10000;
    let mut out = String::new();
    write_signed(major as i128, &mut out);
    push_char(&mut out, '.');
    write_signed(minor as i128, &mut out);
    assert(out@ =~= version_text(version_num as int));
    out
}

/// The row the connect-time probe returns, as plain values.
#[derive(Debug, Clone, PartialEq, Eq)]
pub struct ProbeRow {
    pub version_num: i32,
    pub is_monitor: bool,
    pub is_superuser: bool,
    pub statements_version: Option<String>,
    pub can_signal: Option<bool>,
    pub can_reload: Option<bool>,
    pub can_reset_statements: Option<bool>,
    pub can_maintain: Option<bool>,
}

pub fn map_server_info(row: &ProbeRow) -> (info: ServerInfo)
    ensures
        info.version_num == row.version_num,
        info.version_display@ == version_text(row.version_num as int),
        info.privilege == privilege_of(row.is_superuser, row.is_monitor),
        match info.statements {
            StatementsAvailability::Available { version } => row.statements_version.is_some()
                && version@ == row.statements_version.unwrap()@ && meets_statements_floor(
                version@,
            ),
            StatementsAvailability::TooOld { version } => row.statements_version.is_some()
                && version@ == row.statements_version.unwrap()@ && !meets_statements_floor(
                version@,
            ),
            StatementsAvailability::NotInstalled => row.statements_version.is_none(),
        },
        info.capabilities.signal_backend == (row.can_signal == Some(true)),
        info.capabilities.reload_conf == (row.can_reload == Some(true)),
        info.capabilities.reset_statements == (row.can_reset_statements == Some(true)),
        info.capabilities.maintain == (row.can_maintain == Some(true)),
{
    let extversion: Option<&str> = match &row.statements_version {
        Some(v) => Some(v.as_str()),
        None => None,
    };
    ServerInfo {
        version_num: row.version_num,
        version_display: format_version(row.version_num),
        privilege: PrivilegeLevel::classify(row.is_superuser, row.is_monitor),
        statements: StatementsAvailability::classify(extversion),
        capabilities: Capabilities::from_flags(
            row.can_signal,
            row.can_reload,
            row.can_reset_statements,
            row.can_maintain,
        ),
    }
}

} // verus!
