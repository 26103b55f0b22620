//! The state database's rows, where the state lives on disk, and how ages
//! and durations read to a person. The database itself (SQLite) is reached
//! by the program; these are the values it stores and the rules around them.

use vstd::prelude::*;

use crate::text::{
    chars_of, decimal, decimal_chars, opt_view, parse_uint, parse_uint_spec, push_str, starts_with,
    string_of,
};

verus! {

/// A pulled image.
#[derive(Debug, Clone)]
pub struct ImageRow {
    pub id: String,
    pub reference: String,
    pub digest: String,
    pub size: i64,
    pub rootfs: String,
    pub created_at: String,
}

/// A machine.
#[derive(Debug, Clone)]
pub struct MachineRow {
    pub id: String,
    pub name: Option<String>,
    pub image: String,
    pub kind: String,
    pub command: String,
    pub status: String,
    pub exit_code: Option<i64>,
    pub pid: Option<i64>,
    pub detached: bool,
    pub cpus: i64,
    pub mem: i64,
    pub state_dir: String,
    pub created_at: String,
    pub finished_at: Option<String>,
    pub volume: Option<String>,
    /// Global network this machine joins on (re)start, if any.
    pub network: Option<String>,
    /// Its assigned IP on that network.
    pub net_ip: Option<String>,
    /// Host-to-guest TCP port forwards, comma-joined `HOST:GUEST` pairs.
    pub ports: Option<String>,
}

/// A disk image file a machine booted from.
#[derive(Debug, Clone)]
pub struct DiskRow {
    pub id: String,
    pub path: String,
    pub size: Option<i64>,
    pub created_at: String,
}

/// A named persistent volume.
#[derive(Debug, Clone)]
pub struct VolumeRow {
    pub name: String,
    pub kind: String,
    pub base: String,
    pub path: String,
    pub created_at: String,
}

/// A saved snapshot flavor (a copy-on-write clone of a machine's rootfs).
#[derive(Debug, Clone)]
pub struct FlavorRow {
    pub name: String,
    /// `linux` / `freebsd` / `netbsd`.
    pub kind: String,
    /// The base image or ref the snapshot came from.
    pub base: String,
    /// `<state>/flavors/<name>`.
    pub path: String,
    pub description: String,
    pub created_at: String,
}

/// A global network.
#[derive(Debug, Clone)]
pub struct NetworkRow {
    pub name: String,
    pub subnet: String,
    pub gateway: String,
    pub control_socket: String,
    pub dir: String,
    pub pid: Option<i64>,
    pub created_at: String,
}

/// `Path::join` with a relative or absolute component: an absolute one
/// replaces the path; otherwise one `/` separates them.
pub open spec fn join(dir: Seq<char>, name: Seq<char>) -> Seq<char> {
    if starts_with(name, "/"@) {
        name
    } else if dir.len() == 0 || dir.last() == '/' {
        dir + name
    } else {
        dir + "/"@ + name
    }
}

/// `Path::join`.
pub fn path_join(dir: &str, name: &str) -> (r: String)
    ensures
        r@ == join(dir@, name@),
{
    if crate::text::has_prefix(name, "/") {
        return String::from_str(name);
    }
    let d = chars_of(dir);
    let mut v: Vec<char> = Vec::new();
    push_str(&mut v, dir);
    if !(d.len() == 0 || d[d.len() - 1] == '/') {
        push_str(&mut v, "/");
    }
    push_str(&mut v, name);
    string_of(v.as_slice())
}

/// The state directory: `$BSDKRUN_STATE`, else `$XDG_STATE_HOME/bsdkrun`,
/// else `$HOME/.local/state/bsdkrun` (empty variables count as unset, except
/// `HOME`).
pub open spec fn state_dir_spec(state: Option<Seq<char>>, xdg: Option<Seq<char>>, home: Option<Seq<char>>) -> Option<Seq<char>> {
    if state matches Some(s) && s.len() > 0 {
        state
    } else if xdg matches Some(x) && x.len() > 0 {
        Some(join(xdg->0, "bsdkrun"@))
    } else {
        match home {
            Some(h) => Some(join(h, ".local/state/bsdkrun"@)),
            None => None,
        }
    }
}


/// The state directory, from `BSDKRUN_STATE`, `XDG_STATE_HOME` and `HOME`;
/// without any of them, the error the user sees.
pub fn state_dir(state: Option<String>, xdg: Option<String>, home: Option<String>) -> (r: Result<String, String>)
    ensures
        match r {
            Ok(d) => state_dir_spec(opt_view(state), opt_view(xdg), opt_view(home)) == Some(d@),
            Err(e) => state_dir_spec(opt_view(state), opt_view(xdg), opt_view(home)) is None && e@
                == "HOME is not set"@,
        },
{
    match state {
        Some(s) => {
            if s.as_str().unicode_len() > 0 {
                return Ok(s);
            }
        },
        None => {},
    }
    match xdg {
        Some(x) => {
            if x.as_str().unicode_len() > 0 {
                return Ok(path_join(x.as_str(), "bsdkrun"));
            }
        },
        None => {},
    }
    match home {
        Some(h) => Ok(path_join(h.as_str(), ".local/state/bsdkrun")),
        None => Err(String::from_str("HOME is not set")),
    }
}

/// Runtime directory for a machine: `<state>/machines/<id>`.
pub fn machine_dir(state: &str, id: &str) -> (r: String)
    ensures
        r@ == join(join(state@, "machines"@), id@),
{
    let m = path_join(state, "machines");
    path_join(m.as_str(), id)
}

/// Directory holding saved snapshot flavors: `<state>/flavors`.
pub fn flavors_dir(state: &str) -> (r: String)
    ensures
        r@ == join(state@, "flavors"@),
{
    path_join(state, "flavors")
}

/// The historical location for named volumes: `<state>/volumes`.
pub fn volumes_dir_default(state: &str) -> (r: String)
    ensures
        r@ == join(state@, "volumes"@),
{
    path_join(state, "volumes")
}

/// Directory holding named volumes: on macOS the case-sensitive store's
/// (`store_volumes`), elsewhere `<state>/volumes`.
pub fn volumes_dir(state: &str, store_volumes: Option<String>) -> (r: String)
    ensures
        match store_volumes {
            Some(s) => r@ == s@,
            None => r@ == join(state@, "volumes"@),
        },
{
    match store_volumes {
        Some(s) => s,
        None => volumes_dir_default(state),
    }
}

/// Directory holding global-network runtime state: `<state>/networks`.
pub fn networks_dir(state: &str) -> (r: String)
    ensures
        r@ == join(state@, "networks"@),
{
    path_join(state, "networks")
}

/// Seconds from a unix-seconds timestamp (0 when it does not parse) to
/// `now`, never negative.
pub open spec fn secs_since_spec(ts: Seq<char>, now: u64) -> nat {
    let then = match parse_uint_spec(ts, u64::MAX as nat) {
        Some(v) => v,
        None => 0,
    };
    if now >= then {
        (now - then) as nat
    } else {
        0
    }
}

/// Seconds since a unix-seconds timestamp string.
pub fn secs_since(ts: &str, now: u64) -> (r: u64)
    ensures
        r == secs_since_spec(ts@, now),
{
    let c = chars_of(ts);
    let then = match parse_uint(&c, u64::MAX) {
        Some(v) => v,
        None => 0,
    };
    now.saturating_sub(then)
}

/// A relative age like `3m ago`: seconds, minutes, hours or days.
pub open spec fn age_spec(secs: nat) -> Seq<char> {
    if secs < 60 {
        decimal(secs) + "s ago"@
    } else if secs < 3600 {
        decimal(secs / 60) + "m ago"@
    } else if secs < 86400 {
        decimal(secs / 3600) + "h ago"@
    } else {
        decimal(secs / 86400) + "d ago"@
    }
}

fn num_then(n: u64, suffix: &str) -> (r: String)
    ensures
        r@ == decimal(n as nat) + suffix@,
{
    let mut v = decimal_chars(n);
    push_str(&mut v, suffix);
    string_of(v.as_slice())
}

/// Format a unix-seconds timestamp as a relative age, as of `now`.
pub fn age(created_at: &str, now: u64) -> (r: String)
    ensures
        r@ == age_spec(secs_since_spec(created_at@, now)),
{
    let secs = secs_since(created_at, now);
    if secs < 60 {
        num_then(secs, "s ago")
    } else if secs < 3600 {
        num_then(secs / 60, "m ago")
    } else if secs < 86400 {
        num_then(secs / 3600, "h ago")
    } else {
        num_then(secs / 86400, "d ago")
    }
}

/// A duration in Docker's phrasing: "5 seconds", "About a minute",
/// "3 hours", "2 days", "3 weeks", "4 months", "2 years"; hours are rounded
/// to the nearest hour (half up).
pub open spec fn human_duration_spec(secs: nat) -> Seq<char> {
    let minutes = secs / 60;
    let hours = (secs + 1800) / 3600;
    if secs < 1 {
        "Less than a second"@
    } else if secs == 1 {
        "1 second"@
    } else if secs < 60 {
        decimal(secs) + " seconds"@
    } else if minutes == 1 {
        "About a minute"@
    } else if minutes < 60 {
        decimal(minutes) + " minutes"@
    } else if hours == 1 {
        "About an hour"@
    } else if hours < 48 {
        decimal(hours) + " hours"@
    } else if hours < 24 * 7 * 2 {
        decimal(hours / 24) + " days"@
    } else if hours < 24 * 30 * 2 {
        decimal(hours / 24 / 7) + " weeks"@
    } else if hours < 24 * 365 * 2 {
        decimal(hours / 24 / 30) + " months"@
    } else {
        decimal(hours / 24 / 365) + " years"@
    }
}

/// A human duration in Docker's exact phrasing.
pub fn human_duration(secs: u64) -> (r: String)
    ensures
        r@ == human_duration_spec(secs as nat),
{
    let minutes = secs / 60;
    let hours = secs / 3600 + (if secs % 3600 >= 1800 {
        1
    } else {
        0
    });
    assert(hours == (secs + 1800) / 3600) by (nonlinear_arith)
        requires
            hours == secs / 3600 + (if secs % 3600 >= 1800 {
                1int
            } else {
                0int
            }),
    {
    }
    if secs < 1 {
        String::from_str("Less than a second")
    } else if secs == 1 {
        String::from_str("1 second")
    } else if secs < 60 {
        num_then(secs, " seconds")
    } else if minutes == 1 {
        String::from_str("About a minute")
    } else if minutes < 60 {
        num_then(minutes, " minutes")
    } else if hours == 1 {
        String::from_str("About an hour")
    } else if hours < 48 {
        num_then(hours, " hours")
    } else if hours < 24 * 7 * 2 {
        num_then(hours / 24, " days")
    } else if hours < 24 * 30 * 2 {
        num_then(hours / 24 / 7, " weeks")
    } else if hours < 24 * 365 * 2 {
        num_then(hours / 24 / 30, " months")
    } else {
        num_then(hours / 24 / 365, " years")
    }
}

/// Docker-style human duration since a unix-seconds timestamp string.
pub fn human_duration_since(ts: &str, now: u64) -> (r: String)
    ensures
        r@ == human_duration_spec(secs_since_spec(ts@, now)),
{
    human_duration(secs_since(ts, now))
}

/// An age of `secs` reads as `n` of `unit` seconds followed by `suffix`,
/// with `n` whole units fitting in `secs` and the next one not.
pub open spec fn age_reads(secs: nat, n: nat, unit: nat, suffix: Seq<char>) -> bool {
    age_spec(secs) == decimal(n) + suffix && n * unit <= secs < n * unit + unit
}

/// An age reads as the whole number of its largest unit that fits: the
/// number shown, times its unit, is at most the elapsed seconds and within
/// one unit of them; seconds under a minute, minutes under an hour, hours
/// under a day, then days.
pub proof fn ages_count_whole_units(secs: nat)
    ensures
        secs < 60 ==> exists|n: nat| #[trigger] age_reads(secs, n, 1, "s ago"@),
        60 <= secs < 3600 ==> exists|n: nat| #[trigger] age_reads(secs, n, 60, "m ago"@),
        3600 <= secs < 86400 ==> exists|n: nat| #[trigger] age_reads(secs, n, 3600, "h ago"@),
        86400 <= secs ==> exists|n: nat| #[trigger] age_reads(secs, n, 86400, "d ago"@),
{
    if secs < 60 {
        assert(age_reads(secs, secs, 1, "s ago"@));
    } else if secs < 3600 {
        assert(age_reads(secs, secs / 60, 60, "m ago"@));
    } else if secs < 86400 {
        assert(age_reads(secs, secs / 3600, 3600, "h ago"@));
    } else {
        assert(age_reads(secs, secs / 86400, 86400, "d ago"@));
    }
}

} // verus!
