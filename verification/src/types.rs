//! Core data types for recorded telemetry.

use vstd::prelude::*;
use crate::turn::Position;

verus! {

/// DRS (Drag Reduction System) status.
#[derive(Debug, Clone, Copy, PartialEq, Eq, Structural)]
pub enum DrsStatus {
    Off,
    Eligible,
    Active,
}

impl Default for DrsStatus {
    fn default() -> (r: Self)
        ensures
            r == DrsStatus::Off,
    {
        DrsStatus::Off
    }
}

/// A single telemetry sample from a car.
///
/// Times are session-relative timestamps in integer time units
/// (milliseconds); positions are fixed-point world coordinates.
#[derive(Debug, Clone, Copy, PartialEq, Eq, Structural)]
pub struct TelemetrySample {
    /// Position in world coordinates
    pub position: Position,
    /// Session time when this sample was recorded, in milliseconds
    pub time: u64,
    /// Throttle application (0-100%)
    pub throttle: u8,
    /// Brake application (0 or 100)
    pub brake: u8,
    /// Current gear (0 = neutral, 1-8 = forward gears)
    pub gear: u8,
    /// Speed in km/h
    pub speed: u16,
    /// DRS status
    pub drs: DrsStatus,
}

/// The timestamps of a run of samples never decrease: the ordering invariant
/// that a lap's sample sequence carries.
pub open spec fn time_sorted(s: Seq<TelemetrySample>) -> bool {
    forall|i: int, j: int| 0 <= i <= j < s.len() ==> s[i].time <= s[j].time
}

/// A complete lap with all telemetry samples.
#[derive(Debug, Clone)]
pub struct Lap {
    /// Lap number (1-indexed)
    pub number: u32,
    /// Lap time in milliseconds (None if incomplete)
    pub lap_time: Option<u64>,
    /// Sector times [S1, S2, S3] in milliseconds
    pub sector_times: [Option<u64>; 3],
    /// All telemetry samples for this lap, in time-ascending order
    pub samples: Vec<TelemetrySample>,
    /// Whether this lap is valid (no track limits, etc.)
    pub is_valid: bool,
}

/// Driver information.
#[derive(Debug, Clone)]
pub struct Driver {
    /// Three-letter driver abbreviation (e.g., "VER", "HAM")
    pub code: String,
    /// Full driver name
    pub name: String,
    /// Car number
    pub number: u32,
    /// Team name
    pub team: String,
    /// Team color as hex (e.g., "#FF0000")
    pub team_color: String,
}

/// A driver's session data containing all their laps.
#[derive(Debug, Clone)]
pub struct DriverSession {
    pub driver: Driver,
    pub laps: Vec<Lap>,
}

/// Session type.
#[derive(Debug, Clone, Copy, PartialEq, Eq, Structural)]
pub enum SessionType {
    Practice1,
    Practice2,
    Practice3,
    Qualifying,
    Sprint,
    Race,
}

/// The short label that names each session type.
pub open spec fn session_type_label(t: SessionType) -> Seq<char> {
    match t {
        SessionType::Practice1 => "FP1"@,
        SessionType::Practice2 => "FP2"@,
        SessionType::Practice3 => "FP3"@,
        SessionType::Qualifying => "Q"@,
        SessionType::Sprint => "Sprint"@,
        SessionType::Race => "Race"@,
    }
}

impl SessionType {
    pub fn as_str(&self) -> (r: &'static str)
        ensures
            r@ == session_type_label(*self),
    {
        match self {
            Self::Practice1 => "FP1",
            Self::Practice2 => "FP2",
            Self::Practice3 => "FP3",
            Self::Qualifying => "Q",
            Self::Sprint => "Sprint",
            Self::Race => "Race",
        }
    }
}

/// Complete session data for a race weekend event.
#[derive(Debug, Clone)]
pub struct Session {
    /// Year of the season
    pub year: u32,
    /// Circuit name
    pub circuit: String,
    /// Circuit short name / location
    pub circuit_short: String,
    /// Type of session
    pub session_type: SessionType,
    /// Session start as a Unix timestamp in seconds
    pub date: i64,
    /// All driver sessions
    pub drivers: Vec<DriverSession>,
}

/// Character-by-character string equality, decided against the views.
pub(crate) fn str_eq(a: &str, b: &str) -> (r: bool)
    ensures
        r == (a@ == b@),
{
    let la = a.unicode_len();
    let lb = b.unicode_len();
    if la != lb {
        return false;
    }
    let mut i: usize = 0;
    while i < la
        invariant
            la == a@.len(),
            la == b@.len(),
            i <= la,
            forall|j: int| 0 <= j < i ==> a@[j] == b@[j],
        decreases la - i,
    {
        if a.get_char(i) != b.get_char(i) {
            return false;
        }
        i += 1;
    }
    proof {
        assert(a@ =~= b@);
    }
    true
}

impl Session {
    /// Get a driver's session data by their code: the first stored driver
    /// whose code matches exactly, if any.
    pub fn get_driver(&self, code: &str) -> (r: Option<&DriverSession>)
        ensures
            match r {
                Some(d) => exists|i: int|
                    #![auto]
                    0 <= i < self.drivers@.len() && *d == self.drivers@[i]
                        && self.drivers@[i].driver.code@ == code@ && (forall|j: int|
                        0 <= j < i ==> self.drivers@[j].driver.code@ != code@),
                None => forall|i: int|
                    #![auto]
                    0 <= i < self.drivers@.len() ==> self.drivers@[i].driver.code@ != code@,
            },
    {
        let n = self.drivers.len();
        let mut i: usize = 0;
        while i < n
            invariant
                n == self.drivers@.len(),
                i <= n,
                forall|j: int| #![auto] 0 <= j < i ==> self.drivers@[j].driver.code@ != code@,
            decreases n - i,
        {
            if str_eq(self.drivers[i].driver.code.as_str(), code) {
                return Some(&self.drivers[i]);
            }
            i += 1;
        }
        None
    }

    /// Get all driver codes in this session, in storage order.
    pub fn driver_codes(&self) -> (r: Vec<&str>)
        ensures
            r@.len() == self.drivers@.len(),
            forall|i: int| #![auto] 0 <= i < r@.len() ==> r@[i]@ == self.drivers@[i].driver.code@,
    {
        let n = self.drivers.len();
        let mut out: Vec<&str> = Vec::new();
        let mut i: usize = 0;
        while i < n
            invariant
                n == self.drivers@.len(),
                i <= n,
                out@.len() == i,
                forall|j: int| #![auto] 0 <= j < i ==> out@[j]@ == self.drivers@[j].driver.code@,
            decreases n - i,
        {
            out.push(self.drivers[i].driver.code.as_str());
            i += 1;
        }
        out
    }
}

} // verus!
