//! Platform-independent metric vocabulary: quality flags, the refresh interval and the
//! dashboard's modes.

use crate::i18n::{Language, Strings};
use vstd::prelude::*;

verus! {

/// Version of the JSON output contract.
pub const SCHEMA_VERSION: u8 = 2;

#[derive(Debug, Clone, Copy, PartialEq, Eq, Structural)]
pub enum MetricQuality {
    Fresh,
    Stale,
    Unavailable,
    PermissionDenied,
    Loading,
}

#[derive(Debug, Clone, Copy, PartialEq, Eq, Structural)]
pub enum CapabilityState {
    Available,
    Unavailable,
    PermissionDenied,
    Loading,
}

impl CapabilityState {
    pub open spec fn spec_name(self) -> &'static str {
        match self {
            CapabilityState::Available => "available",
            CapabilityState::Unavailable => "unavailable",
            CapabilityState::PermissionDenied => "permission_denied",
            CapabilityState::Loading => "loading",
        }
    }

    /// The snake_case name the JSON envelope carries as its `source`.
    pub fn as_str(self) -> (s: &'static str)
        ensures
            s == self.spec_name(),
    {
        match self {
            CapabilityState::Available => "available",
            CapabilityState::Unavailable => "unavailable",
            CapabilityState::PermissionDenied => "permission_denied",
            CapabilityState::Loading => "loading",
        }
    }
}

#[derive(Debug, Clone, PartialEq, Eq, Structural)]
pub enum RefreshIntervalError {
    OutOfRange,
}

impl RefreshIntervalError {
    pub fn message(&self) -> (m: &'static str)
        ensures
            m == "refresh interval must be between 250ms and 60s",
    {
        "refresh interval must be between 250ms and 60s"
    }
}

/// Sampling interval in milliseconds, always within `[MIN_MILLIS, MAX_MILLIS]`.
#[derive(Debug, Clone, Copy, PartialEq, Eq, Structural)]
pub struct RefreshInterval(u64);

pub const REFRESH_MIN_MILLIS: u64 = 250;

pub const REFRESH_MAX_MILLIS: u64 = 60_000;

impl RefreshInterval {
    pub const MIN_MILLIS: u64 = 250;

    pub const MAX_MILLIS: u64 = 60_000;

    #[verifier::type_invariant]
    spec fn in_range(self) -> bool {
        REFRESH_MIN_MILLIS <= self.0 <= REFRESH_MAX_MILLIS
    }

    pub closed spec fn millis(self) -> u64 {
        self.0
    }

    pub fn from_millis(millis: u64) -> (r: Result<RefreshInterval, RefreshIntervalError>)
        ensures
            REFRESH_MIN_MILLIS <= millis <= REFRESH_MAX_MILLIS <==> r is Ok,
            r matches Ok(interval) ==> interval.millis() == millis,
            r matches Err(e) ==> e == RefreshIntervalError::OutOfRange,
    {
        if REFRESH_MIN_MILLIS <= millis && millis <= REFRESH_MAX_MILLIS {
            Ok(RefreshInterval(millis))
        } else {
            Err(RefreshIntervalError::OutOfRange)
        }
    }

    pub fn as_millis(self) -> (m: u64)
        ensures
            m == self.millis(),
            REFRESH_MIN_MILLIS <= m <= REFRESH_MAX_MILLIS,
    {
        proof {
            use_type_invariant(&self);
        }
        self.0
    }
}

impl Default for RefreshInterval {
    fn default() -> (r: Self)
        ensures
            r.millis() == 1000,
    {
        RefreshInterval(1000)
    }
}

#[derive(Debug, Clone, Copy, PartialEq, Eq, Structural)]
pub enum AppMode {
    Overview,
    Processes,
    Cpu,
    Memory,
    Network,
    Disk,
    Gpu,
    Hardware,
    Sensors,
}

impl AppMode {
    /// The mode-bar position, `1` through `9`.
    pub open spec fn spec_number(self) -> u8 {
        match self {
            AppMode::Overview => 1,
            AppMode::Processes => 2,
            AppMode::Cpu => 3,
            AppMode::Memory => 4,
            AppMode::Network => 5,
            AppMode::Disk => 6,
            AppMode::Gpu => 7,
            AppMode::Hardware => 8,
            AppMode::Sensors => 9,
        }
    }

    pub open spec fn spec_from_number(number: u8) -> Option<AppMode> {
        if number == 1 {
            Some(AppMode::Overview)
        } else if number == 2 {
            Some(AppMode::Processes)
        } else if number == 3 {
            Some(AppMode::Cpu)
        } else if number == 4 {
            Some(AppMode::Memory)
        } else if number == 5 {
            Some(AppMode::Network)
        } else if number == 6 {
            Some(AppMode::Disk)
        } else if number == 7 {
            Some(AppMode::Gpu)
        } else if number == 8 {
            Some(AppMode::Hardware)
        } else if number == 9 {
            Some(AppMode::Sensors)
        } else {
            None
        }
    }

    /// Every mode, in mode-bar order.
    pub open spec fn spec_all() -> Seq<AppMode> {
        seq![
            AppMode::Overview,
            AppMode::Processes,
            AppMode::Cpu,
            AppMode::Memory,
            AppMode::Network,
            AppMode::Disk,
            AppMode::Gpu,
            AppMode::Hardware,
            AppMode::Sensors,
        ]
    }

    /// Every mode, in the order of their numbers.
    pub const ALL: [AppMode; 9] = [
        AppMode::Overview,
        AppMode::Processes,
        AppMode::Cpu,
        AppMode::Memory,
        AppMode::Network,
        AppMode::Disk,
        AppMode::Gpu,
        AppMode::Hardware,
        AppMode::Sensors,
    ];

    pub fn all() -> (modes: [AppMode; 9])
        ensures
            modes@ == Self::spec_all(),
    {
        let modes = [
            AppMode::Overview,
            AppMode::Processes,
            AppMode::Cpu,
            AppMode::Memory,
            AppMode::Network,
            AppMode::Disk,
            AppMode::Gpu,
            AppMode::Hardware,
            AppMode::Sensors,
        ];
        assert(modes@ =~= Self::spec_all());
        modes
    }

    pub fn number(self) -> (n: u8)
        ensures
            n == self.spec_number(),
    {
        match self {
            AppMode::Overview => 1,
            AppMode::Processes => 2,
            AppMode::Cpu => 3,
            AppMode::Memory => 4,
            AppMode::Network => 5,
            AppMode::Disk => 6,
            AppMode::Gpu => 7,
            AppMode::Hardware => 8,
            AppMode::Sensors => 9,
        }
    }

    pub fn from_number(number: u8) -> (m: Option<AppMode>)
        ensures
            m == Self::spec_from_number(number),
    {
        match number {
            1 => Some(AppMode::Overview),
            2 => Some(AppMode::Processes),
            3 => Some(AppMode::Cpu),
            4 => Some(AppMode::Memory),
            5 => Some(AppMode::Network),
            6 => Some(AppMode::Disk),
            7 => Some(AppMode::Gpu),
            8 => Some(AppMode::Hardware),
            9 => Some(AppMode::Sensors),
            _ => None,
        }
    }

    pub open spec fn spec_label(self, text: Strings) -> &'static str {
        match self {
            AppMode::Overview => text.mode_overview,
            AppMode::Processes => text.mode_processes,
            AppMode::Cpu => text.mode_cpu,
            AppMode::Memory => text.mode_memory,
            AppMode::Network => text.mode_network,
            AppMode::Disk => text.mode_disk,
            AppMode::Gpu => text.mode_gpu,
            AppMode::Hardware => text.mode_hardware,
            AppMode::Sensors => text.mode_sensors,
        }
    }

    /// The mode's name in the mode bar, title bar and panel titles.
    pub fn label(self, language: Language) -> (l: &'static str)
        ensures
            l == self.spec_label(language.text()),
    {
        let strings = language.strings();
        match self {
            AppMode::Overview => strings.mode_overview,
            AppMode::Processes => strings.mode_processes,
            AppMode::Cpu => strings.mode_cpu,
            AppMode::Memory => strings.mode_memory,
            AppMode::Network => strings.mode_network,
            AppMode::Disk => strings.mode_disk,
            AppMode::Gpu => strings.mode_gpu,
            AppMode::Hardware => strings.mode_hardware,
            AppMode::Sensors => strings.mode_sensors,
        }
    }
}

/// A mode's number leads back to the mode, and exactly the numbers `1..=9` name a mode,
/// each the one whose number it is.
pub proof fn lemma_mode_numbers_round_trip(mode: AppMode, number: u8)
    ensures
        AppMode::spec_from_number(mode.spec_number()) == Some(mode),
        1 <= mode.spec_number() <= 9,
        AppMode::spec_from_number(number) is Some <==> 1 <= number <= 9,
        AppMode::spec_from_number(number) matches Some(m) ==> m.spec_number() == number,
        AppMode::spec_all()[mode.spec_number() - 1] == mode,
{
}

} // verus!
