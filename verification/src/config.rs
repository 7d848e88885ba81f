//! The defaults a user has configured, and how command-line arguments override them.

use crate::download::ExistingFileStrategy;
use crate::text::{trim, trimmed};
use vstd::prelude::*;

verus! {

/// The host that is used where neither an argument nor the configuration names one.
pub const DEFAULT_HOST: &'static str = "http://localhost:3435";

/// The number of attempts that is used where neither an argument nor the configuration
/// sets one.
pub const DEFAULT_MAX_RETRIES: usize = 10;

/// The configured defaults.
#[derive(Clone, Debug, PartialEq, Eq)]
pub struct AppConfig {
    pub host: Option<String>,
    pub token: Option<String>,
    pub upload_parent_id: Option<String>,
    pub allow_no_ext: Option<bool>,
    pub max_retries: Option<u32>,
}

/// A configuration together with where it came from.
#[derive(Clone, Debug, PartialEq, Eq)]
pub struct LoadedConfig {
    /// The file that was looked for, if any could be named.
    pub source: Option<String>,
    /// Whether that file was there.
    pub existed: bool,
    pub data: AppConfig,
}

/// Why a configuration could not be used.
#[derive(Clone, Copy, Debug, PartialEq, Eq, Structural)]
pub enum ConfigError {
    /// No configuration directory could be determined, and no path was given.
    NoConfigDirectory,
    /// No upload token was given, or only a blank one.
    MissingToken,
}

/// The message of an error.
pub fn config_error_message(error: ConfigError) -> (text: String)
    ensures
        text@ == match error {
            ConfigError::NoConfigDirectory => "unable to determine configuration directory"@,
            ConfigError::MissingToken =>
                "upload token is required; pass --token or set it in config"@,
        },
{
    match error {
        ConfigError::NoConfigDirectory => String::from_str(
            "unable to determine configuration directory",
        ),
        ConfigError::MissingToken => String::from_str(
            "upload token is required; pass --token or set it in config",
        ),
    }
}

impl AppConfig {
    /// A configuration that sets nothing.
    pub fn empty() -> (config: Self)
        ensures
            config.host is None,
            config.token is None,
            config.upload_parent_id is None,
            config.allow_no_ext is None,
            config.max_retries is None,
    {
        AppConfig {
            host: None,
            token: None,
            upload_parent_id: None,
            allow_no_ext: None,
            max_retries: None,
        }
    }
}

/// The file to read the configuration from: the one given, else the default one, if the
/// platform has a place for it.
pub fn config_source(path_override: Option<&str>, default_path: Option<&str>) -> (source: Option<
    String,
>)
    ensures
        match source {
            Some(path) => (path_override is Some && path@ == path_override->0@) || (path_override
                is None && default_path is Some && path@ == default_path->0@),
            None => path_override is None && default_path is None,
        },
{
    match path_override {
        Some(path) => Some(String::from_str(path)),
        None => match default_path {
            Some(path) => Some(String::from_str(path)),
            None => None,
        },
    }
}

/// Puts together what was loaded: `source` is the file that was looked for and `found` what
/// it held, `None` if it was not there. A file that was not there, and no file at all, give
/// the configuration that sets nothing.
pub fn load_config(source: Option<String>, found: Option<AppConfig>) -> (loaded: LoadedConfig)
    ensures
        loaded.source == source,
        loaded.existed == (source is Some && found is Some),
        loaded.existed ==> loaded.data == found->0,
        !loaded.existed ==> loaded.data.host is None && loaded.data.token is None
            && loaded.data.upload_parent_id is None && loaded.data.allow_no_ext is None
            && loaded.data.max_retries is None,
{
    match source {
        Some(path) => match found {
            Some(data) => LoadedConfig { source: Some(path), existed: true, data },
            None => LoadedConfig { source: Some(path), existed: false, data: AppConfig::empty() },
        },
        None => LoadedConfig { source: None, existed: false, data: AppConfig::empty() },
    }
}

/// The file to write the configuration to: the one given, else the default one. Fails
/// where neither is there.
pub fn config_path_for_write(path_override: Option<&str>, default_path: Option<&str>) -> (path:
    Result<String, ConfigError>)
    ensures
        match path {
            Ok(p) => (path_override is Some && p@ == path_override->0@) || (path_override is None
                && default_path is Some && p@ == default_path->0@),
            Err(e) => e == ConfigError::NoConfigDirectory && path_override is None && default_path
                is None,
        },
{
    match config_source(path_override, default_path) {
        Some(path) => Ok(path),
        None => Err(ConfigError::NoConfigDirectory),
    }
}

/// The host to talk to: the argument, else the configured one, else [`DEFAULT_HOST`].
pub fn resolve_host(host_arg: Option<String>, config: &AppConfig) -> (host: String)
    ensures
        host@ == match host_arg {
            Some(h) => h@,
            None => match config.host {
                Some(h) => h@,
                None => DEFAULT_HOST@,
            },
        },
{
    match host_arg {
        Some(host) => host,
        None => match &config.host {
            Some(host) => host.clone(),
            None => String::from_str(DEFAULT_HOST),
        },
    }
}

/// The upload token: the argument, else the configured one. A token that is blank or
/// missing is refused.
pub fn resolve_token(token_arg: Option<String>, config: &AppConfig) -> (token: Result<
    String,
    ConfigError,
>)
    ensures
        ({
            let candidate = match token_arg {
                Some(t) => Some(t@),
                None => match config.token {
                    Some(t) => Some(t@),
                    None => None,
                },
            };
            match token {
                Ok(t) => candidate == Some(t@) && trimmed(t@).len() > 0,
                Err(e) => e == ConfigError::MissingToken && (candidate is None || trimmed(
                    candidate->0,
                ).len() == 0),
            }
        }),
{
    let candidate = match token_arg {
        Some(token) => Some(token),
        None => match &config.token {
            Some(token) => Some(token.clone()),
            None => None,
        },
    };
    match candidate {
        Some(token) => {
            if trim(token.as_str()).as_str().unicode_len() == 0 {
                Err(ConfigError::MissingToken)
            } else {
                Ok(token)
            }
        },
        None => Err(ConfigError::MissingToken),
    }
}

/// The directory to upload into: the argument, else the configured one, if any.
pub fn resolve_upload_path(path_arg: Option<String>, config: &AppConfig) -> (path: Option<String>)
    ensures
        match path {
            Some(p) => (path_arg is Some && p@ == path_arg->0@) || (path_arg is None
                && config.upload_parent_id is Some && p@ == config.upload_parent_id->0@),
            None => path_arg is None && config.upload_parent_id is None,
        },
{
    match path_arg {
        Some(path) => Some(path),
        None => match &config.upload_parent_id {
            Some(path) => Some(path.clone()),
            None => None,
        },
    }
}

/// The cap on attempts: the argument if it is positive, else the configured one if it is
/// positive, else [`DEFAULT_MAX_RETRIES`].
pub open spec fn retries_for(retry_arg: Option<usize>, configured: Option<u32>) -> usize {
    if retry_arg is Some && retry_arg->0 > 0 {
        retry_arg->0
    } else if configured is Some && configured->0 > 0 {
        configured->0 as usize
    } else {
        DEFAULT_MAX_RETRIES
    }
}

/// The cap on attempts.
pub fn resolve_retries(retry_arg: Option<usize>, config: &AppConfig) -> (retries: usize)
    ensures
        retries == retries_for(retry_arg, config.max_retries),
{
    match retry_arg {
        Some(value) => {
            if value > 0 {
                return value;
            }
        },
        None => {},
    }
    match config.max_retries {
        Some(value) => {
            if value > 0 {
                return value as usize;
            }
        },
        None => {},
    }
    DEFAULT_MAX_RETRIES
}

/// Whether uploads without an extension are allowed: by the flag, else as configured, else
/// not.
pub fn effective_allow_no_ext(flag: bool, config: &AppConfig) -> (allow: bool)
    ensures
        allow == (flag || config.allow_no_ext == Some(true)),
{
    if flag {
        true
    } else {
        match config.allow_no_ext {
            Some(allow) => allow,
            None => false,
        }
    }
}

/// The strategy that the flags `--skip` and `--dup` choose; `--skip` wins.
pub fn strategy_for(skip: bool, dup: bool) -> (strategy: ExistingFileStrategy)
    ensures
        strategy == if skip {
            ExistingFileStrategy::Skip
        } else if dup {
            ExistingFileStrategy::Duplicate
        } else {
            ExistingFileStrategy::Overwrite
        },
{
    if skip {
        ExistingFileStrategy::Skip
    } else if dup {
        ExistingFileStrategy::Duplicate
    } else {
        ExistingFileStrategy::Overwrite
    }
}

/// What the answer to a yes-or-no question means, the answer taken without the white
/// space around it and in lower case: nothing means the default; `y`, `yes` and `true` mean
/// yes; `n`, `no` and `false` mean no; anything else is no answer, and the question is asked
/// again.
pub open spec fn yes_or_no(answer: Seq<char>, default: bool) -> Option<bool> {
    if answer.len() == 0 {
        Some(default)
    } else if answer == "y"@ || answer == "yes"@ || answer == "true"@ {
        Some(true)
    } else if answer == "n"@ || answer == "no"@ || answer == "false"@ {
        Some(false)
    } else {
        None
    }
}

/// Reads the answer to a yes-or-no question.
pub fn read_bool_answer(answer: &str, default: bool) -> (value: Option<bool>)
    ensures
        value == yes_or_no(answer@, default),
{
    if answer.unicode_len() == 0 {
        Some(default)
    } else if crate::text::same_text(answer, "y") || crate::text::same_text(answer, "yes")
        || crate::text::same_text(answer, "true") {
        Some(true)
    } else if crate::text::same_text(answer, "n") || crate::text::same_text(answer, "no")
        || crate::text::same_text(answer, "false") {
        Some(false)
    } else {
        None
    }
}

/// Reads the answer to a question for an optional value, the answer taken without the
/// white space around it: nothing keeps the current value, `-` clears it, anything else
/// sets it.
pub fn read_optional_answer(answer: &str, current: Option<&str>) -> (value: Option<String>)
    ensures
        match value {
            Some(v) => if answer@.len() == 0 {
                current is Some && v@ == current->0@
            } else {
                answer@ != "-"@ && v@ == answer@
            },
            None => (answer@.len() == 0 && current is None) || answer@ == "-"@,
        },
{
    proof {
        reveal_strlit("-");
    }
    if answer.unicode_len() == 0 {
        match current {
            Some(existing) => Some(String::from_str(existing)),
            None => None,
        }
    } else if crate::text::same_text(answer, "-") {
        None
    } else {
        Some(String::from_str(answer))
    }
}

/// What the answer to the question for the number of attempts means.
#[derive(Clone, Copy, Debug, PartialEq, Eq, Structural)]
pub enum NumberAnswer {
    /// Keep the current value.
    Keep,
    /// Clear the value.
    Clear,
    /// Set the value to this number.
    Number(u32),
    /// No answer: ask again.
    Invalid,
}

/// What the answer to the question for the number of attempts means, the answer taken
/// without the white space around it: nothing keeps the current value, `-` clears it, a
/// positive number sets it, and anything else is no answer.
pub open spec fn attempts_answer(answer: Seq<char>) -> NumberAnswer {
    if answer.len() == 0 {
        NumberAnswer::Keep
    } else if answer == "-"@ {
        NumberAnswer::Clear
    } else {
        match crate::decimal::parsed_u64(answer) {
            Some(n) => if 0 < n <= u32::MAX {
                NumberAnswer::Number(n as u32)
            } else {
                NumberAnswer::Invalid
            },
            None => NumberAnswer::Invalid,
        }
    }
}

/// Reads the answer to the question for the number of attempts.
pub fn read_attempts_answer(answer: &str) -> (value: NumberAnswer)
    ensures
        value == attempts_answer(answer@),
{
    if answer.unicode_len() == 0 {
        NumberAnswer::Keep
    } else if crate::text::same_text(answer, "-") {
        NumberAnswer::Clear
    } else {
        match crate::decimal::parse_u64(answer) {
            Some(n) => if 0 < n && n <= 0xffff_ffff {
                NumberAnswer::Number(n as u32)
            } else {
                NumberAnswer::Invalid
            },
            None => NumberAnswer::Invalid,
        }
    }
}

} // verus!
