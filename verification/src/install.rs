//! The Spectra-backed ops log and the choice of ops log from `BOSON_TELEMETRY`.

use vstd::prelude::*;

use crate::text::{list_contains, normalize, normalized, str_eq, str_views};

verus! {

/// Emits Boson ops metrics and events through Spectra, after the label and payload
/// filtering of `ops_log`.
#[derive(Debug, Clone, Copy, PartialEq, Eq, Structural)]
pub struct SpectraOpsLog;

impl SpectraOpsLog {
    /// New Spectra-backed ops log.
    pub fn new() -> (r: Self)
        ensures
            r == SpectraOpsLog,
    {
        SpectraOpsLog
    }
}

impl Default for SpectraOpsLog {
    fn default() -> (r: Self)
        ensures
            r == SpectraOpsLog,
    {
        SpectraOpsLog
    }
}

/// The process-wide ops log a host installs.
#[derive(Debug, Clone, Copy, PartialEq, Eq, Structural)]
pub enum TelemetryBackend {
    /// Drop every signal (`NoOpsLog`).
    Off,
    /// Print signals to stderr (`ConsoleOpsLog`).
    Console,
    /// Forward signals to Spectra (`SpectraOpsLog`).
    Spectra,
}

/// The settings of `BOSON_TELEMETRY` that turn telemetry off.
pub open spec fn off_settings() -> Seq<Seq<char>> {
    seq!["off"@, "0"@, "false"@, "none"@]
}

/// The ops log chosen for a `BOSON_TELEMETRY` setting (`None` when unset): off
/// aliases and `console` compared trimmed and ASCII case-insensitively, Spectra otherwise.
pub open spec fn backend_for(setting: Option<Seq<char>>) -> TelemetryBackend {
    match setting {
        Some(v) => if off_settings().contains(normalized(v)) {
            TelemetryBackend::Off
        } else if normalized(v) == "console"@ {
            TelemetryBackend::Console
        } else {
            TelemetryBackend::Spectra
        },
        None => TelemetryBackend::Spectra,
    }
}

/// Chooses the ops log for a `BOSON_TELEMETRY` setting: `off`, `0`, `false` or
/// `none` turn telemetry off, `console` prints it, anything else (or no setting)
/// forwards it to Spectra.
pub fn backend_for_setting(setting: Option<&str>) -> (r: TelemetryBackend)
    ensures
        r == backend_for(
            match setting {
                Some(v) => Some(v@),
                None => None,
            },
        ),
{
    match setting {
        Some(v) => {
            let n = normalize(v);
            let off: &'static [&'static str] = &["off", "0", "false", "none"];
            assert(str_views(off@) =~= off_settings());
            if list_contains(off, n.as_str()) {
                TelemetryBackend::Off
            } else if str_eq(n.as_str(), "console") {
                TelemetryBackend::Console
            } else {
                TelemetryBackend::Spectra
            }
        },
        None => TelemetryBackend::Spectra,
    }
}

} // verus!
