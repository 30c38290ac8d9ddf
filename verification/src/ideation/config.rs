//! Configuration of the ideation engine.
//!
//! Weights, the mean interval and the escalation factor are IEEE 754 doubles,
//! held as their bit patterns. For positive doubles the bit patterns order as
//! the values do.

use vstd::prelude::*;

use crate::text;

verus! {

/// The bit pattern of 45.0.
pub const DEFAULT_LAMBDA_MINUTES: u64 = 0x4046_8000_0000_0000;

/// The bit pattern of 3.0.
pub const DEFAULT_BLOCKED_ESCALATION_FACTOR: u64 = 0x4008_0000_0000_0000;

/// The bit pattern of 0.7.
pub const DEFAULT_OPEN_QUESTION_WEIGHT: u64 = 0x3FE6_6666_6666_6666;

/// The bit pattern of 0.2.
pub const DEFAULT_CROSS_CONNECTION_WEIGHT: u64 = 0x3FC9_9999_9999_999A;

/// The bit pattern of 0.1.
pub const DEFAULT_BLOCKED_WEIGHT: u64 = 0x3FB9_9999_9999_999A;

pub const DEFAULT_TICK_SECS: u64 = 60;

pub const DEFAULT_STALE_PROJECT_HOURS: u64 = 24;

pub const DEFAULT_RECENT_SEED_HOURS: u64 = 6;

/// The bit pattern of positive infinity, the largest of the positive doubles.
pub const INFINITY_BITS: u64 = 0x7FF0_0000_0000_0000;

/// Whether a bit pattern is that of a double above zero. Negative values have
/// the top bit set; what is above infinity below that is no number.
pub open spec fn positive(bits: u64) -> bool {
    0 < bits <= INFINITY_BITS
}

/// Relative weights of the three kinds, as bit patterns. A weight that is not
/// above zero turns its kind off.
#[derive(Debug, Clone, Copy, PartialEq, Eq, Structural)]
pub struct NudgeWeights {
    pub open_question: u64,
    pub cross_connection: u64,
    pub blocked: u64,
}

/// The weights that hold where none are configured.
pub open spec fn default_weights() -> NudgeWeights {
    NudgeWeights {
        open_question: DEFAULT_OPEN_QUESTION_WEIGHT,
        cross_connection: DEFAULT_CROSS_CONNECTION_WEIGHT,
        blocked: DEFAULT_BLOCKED_WEIGHT,
    }
}

impl Default for NudgeWeights {
    fn default() -> (r: Self)
        ensures
            r == default_weights(),
    {
        NudgeWeights {
            open_question: DEFAULT_OPEN_QUESTION_WEIGHT,
            cross_connection: DEFAULT_CROSS_CONNECTION_WEIGHT,
            blocked: DEFAULT_BLOCKED_WEIGHT,
        }
    }
}

/// The configuration of the engine.
#[derive(Debug, Clone, Copy, PartialEq, Eq, Structural)]
pub struct IdeationConfig {
    /// Whether the engine runs at all.
    pub enabled: bool,
    /// The mean interval between two nudges in minutes, as a bit pattern.
    pub lambda_minutes: u64,
    /// How often the engine wakes up.
    pub tick_secs: u64,
    pub weights: NudgeWeights,
    /// How much more often it fires while a project is blocked, as a bit pattern.
    pub blocked_escalation_factor: u64,
    /// After how many hours without a change a project counts as quiet.
    pub stale_project_hours: u64,
    /// How many hours back a note or reference counts as recent.
    pub recent_seed_hours: u64,
}

/// The configuration that holds where none is given.
pub open spec fn default_config() -> IdeationConfig {
    IdeationConfig {
        enabled: true,
        lambda_minutes: DEFAULT_LAMBDA_MINUTES,
        tick_secs: DEFAULT_TICK_SECS,
        weights: default_weights(),
        blocked_escalation_factor: DEFAULT_BLOCKED_ESCALATION_FACTOR,
        stale_project_hours: DEFAULT_STALE_PROJECT_HOURS,
        recent_seed_hours: DEFAULT_RECENT_SEED_HOURS,
    }
}

impl Default for IdeationConfig {
    fn default() -> (r: Self)
        ensures
            r == default_config(),
    {
        IdeationConfig {
            enabled: true,
            lambda_minutes: DEFAULT_LAMBDA_MINUTES,
            tick_secs: DEFAULT_TICK_SECS,
            weights: NudgeWeights::default(),
            blocked_escalation_factor: DEFAULT_BLOCKED_ESCALATION_FACTOR,
            stale_project_hours: DEFAULT_STALE_PROJECT_HOURS,
            recent_seed_hours: DEFAULT_RECENT_SEED_HOURS,
        }
    }
}

/// Why no configuration could be read.
#[derive(Debug, Clone, PartialEq, Eq)]
pub enum IdeationConfigError {
    /// The file could not be read.
    Io { path: String, source: String },
    /// The file holds no configuration.
    Toml { path: String, source: String },
}

impl IdeationConfigError {
    pub fn message(&self) -> (r: String)
        ensures
            r@ == (match self {
                IdeationConfigError::Io { path, source } => "reading ideation config "@ + path@
                    + ": "@ + source@,
                IdeationConfigError::Toml { path, source } => "parsing ideation config "@ + path@
                    + ": "@ + source@,
            }),
    {
        match self {
            IdeationConfigError::Io { path, source } => text::concat2(
                &text::concat3("reading ideation config ", path, ": "),
                source,
            ),
            IdeationConfigError::Toml { path, source } => text::concat2(
                &text::concat3("parsing ideation config ", path, ": "),
                source,
            ),
        }
    }
}

/// What became of an attempt to read a file.
#[derive(Debug, Clone, PartialEq, Eq)]
pub enum ConfigFile {
    /// It could not be read, for this reason.
    Unreadable(String),
    /// It holds no configuration, for this reason.
    Malformed(String),
    /// It holds this one.
    Read(IdeationConfig),
}

/// The larger of a number and one.
pub open spec fn at_least_one(n: u64) -> u64 {
    if n < 1 {
        1
    } else {
        n
    }
}

impl IdeationConfig {
    /// The seconds between two ticks: at least one.
    pub fn tick_interval(&self) -> (r: u64)
        ensures
            r == at_least_one(self.tick_secs),
    {
        if self.tick_secs < 1 {
            1
        } else {
            self.tick_secs
        }
    }

    /// The configuration that the file at `path` holds, given what became of the
    /// attempt to read it.
    pub fn load_from(path: &str, file: ConfigFile) -> (r: Result<Self, IdeationConfigError>)
        ensures
            match file {
                ConfigFile::Unreadable(e) => r matches Err(IdeationConfigError::Io {
                    path: p,
                    source,
                }) && p@ == path@ && source == e,
                ConfigFile::Malformed(e) => r matches Err(IdeationConfigError::Toml {
                    path: p,
                    source,
                }) && p@ == path@ && source == e,
                ConfigFile::Read(c) => r matches Ok(x) && x == c,
            },
    {
        match file {
            ConfigFile::Unreadable(e) => Err(
                IdeationConfigError::Io { path: text::owned(path), source: e },
            ),
            ConfigFile::Malformed(e) => Err(
                IdeationConfigError::Toml { path: text::owned(path), source: e },
            ),
            ConfigFile::Read(c) => Ok(c),
        }
    }
}

/// By default nudges come at an average of forty-five minutes, looked at each minute; open
/// questions weigh most and blocked projects least, until these weigh threefold. The numbers
/// that are no integers are given by their bits.
pub proof fn law_defaults(n: u64)
    ensures
        default_config().enabled,
        default_config().lambda_minutes == 0x4046_8000_0000_0000,
        default_config().blocked_escalation_factor == 0x4008_0000_0000_0000,
        default_config().weights.open_question == 0x3FE6_6666_6666_6666,
        default_config().weights.cross_connection == 0x3FC9_9999_9999_999A,
        default_config().weights.blocked == 0x3FB9_9999_9999_999A,
        default_config().weights.blocked < default_config().weights.cross_connection
            < default_config().weights.open_question,
        default_config().tick_secs == 60,
        default_config().stale_project_hours == 24,
        default_config().recent_seed_hours == 6,
        n == 0 ==> at_least_one(n) == 1,
        n > 0 ==> at_least_one(n) == n,
{
}

} // verus!
