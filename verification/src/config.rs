//! Settings of a run, and the check that the API keys are there.

use vstd::prelude::*;
use crate::text::{chars_of, parse_u64, parse_u64_chars};

verus! {

/// The settings of a run. `confidence_threshold` is in thousandths.
#[derive(Debug, Clone)]
pub struct Config {
    pub discogs_token: String,
    pub lastfm_api_key: String,
    pub acoustid_app_key: String,
    pub confidence_threshold: u32,
    pub jobs: usize,
    pub essentia_model_path: Option<String>,
}

/// The API key that is missing.
#[derive(Debug, Clone, Copy, PartialEq, Eq, Structural)]
pub enum ConfigError {
    MissingDiscogsToken,
    MissingLastfmApiKey,
    MissingAcoustidAppKey,
}

pub open spec fn config_error_text(e: ConfigError) -> Seq<char> {
    match e {
        ConfigError::MissingDiscogsToken => "DISCOGS_TOKEN no definido en .env"@,
        ConfigError::MissingLastfmApiKey => "LASTFM_API_KEY no definido en .env"@,
        ConfigError::MissingAcoustidAppKey => "ACOUSTID_APP_KEY no definido en .env"@,
    }
}

impl ConfigError {
    /// The message shown for the error.
    pub fn message(&self) -> (s: String)
        ensures
            s@ == config_error_text(*self),
    {
        match self {
            ConfigError::MissingDiscogsToken => "DISCOGS_TOKEN no definido en .env".to_owned(),
            ConfigError::MissingLastfmApiKey => "LASTFM_API_KEY no definido en .env".to_owned(),
            ConfigError::MissingAcoustidAppKey => "ACOUSTID_APP_KEY no definido en .env".to_owned(),
        }
    }
}

impl Config {
    /// All three API keys must be set; the first one missing, in the order
    /// Discogs, Last.fm, AcoustID, is reported.
    pub fn validate_api_keys(&self) -> (r: Result<(), ConfigError>)
        ensures
            r == if self.discogs_token@.len() == 0 {
                Err(ConfigError::MissingDiscogsToken)
            } else if self.lastfm_api_key@.len() == 0 {
                Err(ConfigError::MissingLastfmApiKey)
            } else if self.acoustid_app_key@.len() == 0 {
                Err(ConfigError::MissingAcoustidAppKey)
            } else {
                Ok(())
            },
    {
        if self.discogs_token.as_str().is_empty() {
            return Err(ConfigError::MissingDiscogsToken);
        }
        if self.lastfm_api_key.as_str().is_empty() {
            return Err(ConfigError::MissingLastfmApiKey);
        }
        if self.acoustid_app_key.as_str().is_empty() {
            return Err(ConfigError::MissingAcoustidAppKey);
        }
        Ok(())
    }
}

/// The number of parallel jobs from its setting: the text read as a number
/// (as `str::parse::<usize>` reads it), 8 when it is missing or unreadable.
pub open spec fn jobs_setting(text: Option<Seq<char>>) -> usize {
    match text {
        Some(t) => match parse_u64(t) {
            Some(v) => if v <= usize::MAX {
                v as usize
            } else {
                8
            },
            None => 8,
        },
        None => 8,
    }
}

pub fn jobs_from(text: Option<&str>) -> (n: usize)
    ensures
        n == jobs_setting(
            match text {
                Some(t) => Some(t@),
                None => None,
            },
        ),
{
    match text {
        Some(t) => {
            let tv = chars_of(t);
            match parse_u64_chars(&tv) {
                Some(v) => if v <= usize::MAX as u64 {
                    v as usize
                } else {
                    8
                },
                None => 8,
            }
        },
        None => 8,
    }
}

} // verus!
