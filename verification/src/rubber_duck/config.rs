//! Configuration of the rubber duck.

use vstd::prelude::*;

use crate::paths::{joined, path_join};
use crate::text;

verus! {

pub const DEFAULT_ENDPOINT: &'static str = "http://localhost:11434";

pub const DEFAULT_MODEL: &'static str = "llama3.2:3b";

pub const DEFAULT_TIMEOUT_SECS: u64 = 120;

pub const DEFAULT_SYSTEM_PROMPT: &'static str = "You are a rubber-duck debugging partner. The user is stuck on a problem and needs to articulate it out loud. Ask short, specific clarifying questions that help them externalize what they already know. Do not propose solutions unless explicitly asked. Keep replies concise.";

/// Why no configuration could be read.
#[derive(Debug, Clone, PartialEq, Eq)]
pub enum RubberDuckConfigError {
    /// The file could not be read.
    Io { path: String, source: String },
    /// The file holds no configuration.
    Toml { path: String, source: String },
}

/// The contents of a [`RubberDuckConfigError`].
pub enum ConfigErrorView {
    Io { path: Seq<char>, source: Seq<char> },
    Toml { path: Seq<char>, source: Seq<char> },
}

impl DeepView for RubberDuckConfigError {
    type V = ConfigErrorView;

    open spec fn deep_view(&self) -> ConfigErrorView {
        match self {
            RubberDuckConfigError::Io { path, source } => ConfigErrorView::Io {
                path: path@,
                source: source@,
            },
            RubberDuckConfigError::Toml { path, source } => ConfigErrorView::Toml {
                path: path@,
                source: source@,
            },
        }
    }
}

impl RubberDuckConfigError {
    pub fn message(&self) -> (r: String)
        ensures
            r@ == (match self.deep_view() {
                ConfigErrorView::Io { path, source } => "reading rubber-duck config "@ + path
                    + ": "@ + source,
                ConfigErrorView::Toml { path, source } => "parsing rubber-duck config "@ + path
                    + ": "@ + source,
            }),
    {
        match self {
            RubberDuckConfigError::Io { path, source } => text::concat2(
                &text::concat3("reading rubber-duck config ", path, ": "),
                source,
            ),
            RubberDuckConfigError::Toml { path, source } => text::concat2(
                &text::concat3("parsing rubber-duck config ", path, ": "),
                source,
            ),
        }
    }
}

/// What a file sets. Everything may be left out.
#[derive(Debug, Clone, PartialEq, Eq)]
pub struct RubberDuckSettings {
    pub enabled: Option<bool>,
    pub endpoint: Option<String>,
    pub model: Option<String>,
    pub system_prompt: Option<String>,
    pub timeout_secs: Option<u64>,
}

/// What became of an attempt to read a file.
#[derive(Debug, Clone, PartialEq, Eq)]
pub enum SettingsFile {
    /// It could not be read, for this reason.
    Unreadable(String),
    /// It holds no settings, for this reason.
    Malformed(String),
    /// It holds these.
    Read(RubberDuckSettings),
}

/// The configuration.
#[derive(Debug, Clone, PartialEq, Eq)]
pub struct RubberDuckConfig {
    /// Whether the duck answers at all. Where it does not, asking it to open gives
    /// the reason instead.
    pub enabled: bool,
    /// Where the model is served. `/api/chat` is appended.
    pub endpoint: String,
    /// The model that is asked.
    pub model: String,
    /// The first message of every request.
    pub system_prompt: String,
    /// How long a complete reply may take.
    pub timeout_secs: u64,
}

/// What a [`RubberDuckConfig`] holds.
pub struct ConfigView {
    pub enabled: bool,
    pub endpoint: Seq<char>,
    pub model: Seq<char>,
    pub system_prompt: Seq<char>,
    pub timeout_secs: u64,
}

impl DeepView for RubberDuckConfig {
    type V = ConfigView;

    open spec fn deep_view(&self) -> ConfigView {
        ConfigView {
            enabled: self.enabled,
            endpoint: self.endpoint@,
            model: self.model@,
            system_prompt: self.system_prompt@,
            timeout_secs: self.timeout_secs,
        }
    }
}

/// The configuration that holds where nothing is set.
pub open spec fn default_config() -> ConfigView {
    ConfigView {
        enabled: true,
        endpoint: DEFAULT_ENDPOINT@,
        model: DEFAULT_MODEL@,
        system_prompt: DEFAULT_SYSTEM_PROMPT@,
        timeout_secs: DEFAULT_TIMEOUT_SECS,
    }
}

/// A text that is set, or the one that holds otherwise.
pub open spec fn set_or(set: Option<Seq<char>>, otherwise: Seq<char>) -> Seq<char> {
    match set {
        Some(s) => s,
        None => otherwise,
    }
}

/// The configuration that some settings make: what they leave out is as where
/// nothing is set.
pub open spec fn configured(settings: RubberDuckSettings) -> ConfigView {
    ConfigView {
        enabled: match settings.enabled {
            Some(b) => b,
            None => default_config().enabled,
        },
        endpoint: set_or(settings.endpoint.deep_view(), default_config().endpoint),
        model: set_or(settings.model.deep_view(), default_config().model),
        system_prompt: set_or(
            settings.system_prompt.deep_view(),
            default_config().system_prompt,
        ),
        timeout_secs: match settings.timeout_secs {
            Some(n) => n,
            None => default_config().timeout_secs,
        },
    }
}

fn filled(set: Option<String>, otherwise: &str) -> (r: String)
    ensures
        r@ == set_or(set.deep_view(), otherwise@),
{
    match set {
        Some(s) => s,
        None => text::owned(otherwise),
    }
}

impl Default for RubberDuckConfig {
    fn default() -> (r: Self)
        ensures
            r.deep_view() == default_config(),
    {
        RubberDuckConfig {
            enabled: true,
            endpoint: text::owned(DEFAULT_ENDPOINT),
            model: text::owned(DEFAULT_MODEL),
            system_prompt: text::owned(DEFAULT_SYSTEM_PROMPT),
            timeout_secs: DEFAULT_TIMEOUT_SECS,
        }
    }
}

impl RubberDuckConfig {
    /// The configuration that some settings make.
    pub fn from_settings(settings: RubberDuckSettings) -> (r: Self)
        ensures
            r.deep_view() == configured(settings),
    {
        RubberDuckConfig {
            enabled: match settings.enabled {
                Some(b) => b,
                None => true,
            },
            endpoint: filled(settings.endpoint, DEFAULT_ENDPOINT),
            model: filled(settings.model, DEFAULT_MODEL),
            system_prompt: filled(settings.system_prompt, DEFAULT_SYSTEM_PROMPT),
            timeout_secs: match settings.timeout_secs {
                Some(n) => n,
                None => DEFAULT_TIMEOUT_SECS,
            },
        }
    }

    /// The configuration that the file at `path` holds, given what became of the
    /// attempt to read it.
    pub fn load_from(path: &str, file: SettingsFile) -> (r: Result<Self, RubberDuckConfigError>)
        ensures
            match file {
                SettingsFile::Unreadable(source) => r matches Err(e) && e.deep_view()
                    == (ConfigErrorView::Io { path: path@, source: source@ }),
                SettingsFile::Malformed(source) => r matches Err(e) && e.deep_view()
                    == (ConfigErrorView::Toml { path: path@, source: source@ }),
                SettingsFile::Read(settings) => r matches Ok(c) && c.deep_view() == configured(
                    settings,
                ),
            },
    {
        match file {
            SettingsFile::Unreadable(source) => Err(
                RubberDuckConfigError::Io { path: text::owned(path), source },
            ),
            SettingsFile::Malformed(source) => Err(
                RubberDuckConfigError::Toml { path: text::owned(path), source },
            ),
            SettingsFile::Read(settings) => Ok(Self::from_settings(settings)),
        }
    }

    /// A copy.
    pub fn copied(&self) -> (r: Self)
        ensures
            r.deep_view() == self.deep_view(),
    {
        RubberDuckConfig {
            enabled: self.enabled,
            endpoint: self.endpoint.clone(),
            model: self.model.clone(),
            system_prompt: self.system_prompt.clone(),
            timeout_secs: self.timeout_secs,
        }
    }
}

/// Where the configuration lies, given the directory of all configuration.
pub fn default_rubber_duck_config_path(base: &Option<String>) -> (r: Option<String>)
    ensures
        r.deep_view() == (match base.deep_view() {
            Some(b) => Some(joined(b, "rubber_duck.toml"@)),
            None => None,
        }),
{
    match base {
        Some(b) => Some(path_join(b, "rubber_duck.toml")),
        None => None,
    }
}

/// What is set counts, and what is not set is as by default.
pub proof fn law_what_is_set_counts(s: RubberDuckSettings)
    ensures
        s.enabled is Some ==> configured(s).enabled == s.enabled->0,
        s.enabled is None ==> configured(s).enabled,
        s.endpoint is Some ==> configured(s).endpoint == s.endpoint->0@,
        s.endpoint is None ==> configured(s).endpoint == "http://localhost:11434"@,
        s.model is Some ==> configured(s).model == s.model->0@,
        s.model is None ==> configured(s).model == "llama3.2:3b"@,
        s.system_prompt is Some ==> configured(s).system_prompt == s.system_prompt->0@,
        s.system_prompt is None ==> configured(s).system_prompt == DEFAULT_SYSTEM_PROMPT@,
        s.timeout_secs is Some ==> configured(s).timeout_secs == s.timeout_secs->0,
        s.timeout_secs is None ==> configured(s).timeout_secs == 120,
{
}

} // verus!
