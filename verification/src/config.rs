//! The user-editable settings.
use vstd::prelude::*;

verus! {

/// The settings. Every one of them has a default, so a missing file is fine.
#[derive(Clone, Copy, PartialEq, Eq, Structural, Debug)]
pub struct Config {
    /// Maximum number of distinct files that a semantic search returns.
    pub max_results: usize,
    /// By how much more rows are fetched than results are wanted, to leave room for dropping
    /// repeated files.
    pub overfetch_factor: usize,
    /// Word count of a chunk sent to the embedding model.
    pub chunk_words: usize,
    /// Words that consecutive chunks share.
    pub overlap_words: usize,
    /// Whether the chunks are stored encrypted.
    pub encryption_enabled: bool,
}

/// The settings that a file gives; those it leaves out have their defaults.
#[derive(Clone, Copy, PartialEq, Eq, Structural, Debug)]
pub struct StoredConfig {
    pub max_results: Option<usize>,
    pub overfetch_factor: Option<usize>,
    pub chunk_words: Option<usize>,
    pub overlap_words: Option<usize>,
    pub encryption_enabled: Option<bool>,
}

/// The setting that was given or, where none was, its default.
pub open spec fn or_default(given: Option<usize>, default: usize) -> usize {
    match given {
        Some(n) => n,
        None => default,
    }
}

/// The settings where nothing is given.
pub open spec fn default_config() -> Config {
    Config {
        max_results: 10,
        overfetch_factor: 5,
        chunk_words: 200,
        overlap_words: 50,
        encryption_enabled: false,
    }
}

/// The settings that a file gives, with defaults for those it leaves out.
pub open spec fn filled_in(s: StoredConfig) -> Config {
    Config {
        max_results: or_default(s.max_results, default_config().max_results),
        overfetch_factor: or_default(s.overfetch_factor, default_config().overfetch_factor),
        chunk_words: or_default(s.chunk_words, default_config().chunk_words),
        overlap_words: or_default(s.overlap_words, default_config().overlap_words),
        encryption_enabled: s.encryption_enabled == Some(true),
    }
}

/// The file that gives exactly these settings.
pub open spec fn written_out(c: Config) -> StoredConfig {
    StoredConfig {
        max_results: Some(c.max_results),
        overfetch_factor: Some(c.overfetch_factor),
        chunk_words: Some(c.chunk_words),
        overlap_words: Some(c.overlap_words),
        encryption_enabled: Some(c.encryption_enabled),
    }
}

/// Settings that were written are loaded back unchanged.
pub proof fn law_settings_load_back(c: Config)
    ensures
        filled_in(written_out(c)) == c,
{
}

pub fn default_max_results() -> (r: usize)
    ensures
        r == default_config().max_results,
{
    10
}

pub fn default_overfetch_factor() -> (r: usize)
    ensures
        r == default_config().overfetch_factor,
{
    5
}

pub fn default_chunk_words() -> (r: usize)
    ensures
        r == default_config().chunk_words,
{
    200
}

pub fn default_overlap_words() -> (r: usize)
    ensures
        r == default_config().overlap_words,
{
    50
}

fn given_or(given: Option<usize>, default: usize) -> (r: usize)
    ensures
        r == or_default(given, default),
{
    match given {
        Some(n) => n,
        None => default,
    }
}

impl Default for Config {
    fn default() -> (r: Config)
        ensures
            r == default_config(),
    {
        Config {
            max_results: default_max_results(),
            overfetch_factor: default_overfetch_factor(),
            chunk_words: default_chunk_words(),
            overlap_words: default_overlap_words(),
            encryption_enabled: false,
        }
    }
}

impl Config {
    /// Takes the settings of the stored file, with defaults for those it leaves out. Where no file
    /// is stored, the settings are the defaults, and the second part of the result says that they
    /// are to be written.
    pub fn load(stored: Option<StoredConfig>) -> (r: (Config, bool))
        ensures
            match stored {
                None => r.0 == default_config() && r.1,
                Some(s) => r.0 == filled_in(s) && !r.1,
            },
    {
        match stored {
            None => (Config::default(), true),
            Some(s) => (
                Config {
                    max_results: given_or(s.max_results, default_max_results()),
                    overfetch_factor: given_or(s.overfetch_factor, default_overfetch_factor()),
                    chunk_words: given_or(s.chunk_words, default_chunk_words()),
                    overlap_words: given_or(s.overlap_words, default_overlap_words()),
                    encryption_enabled: match s.encryption_enabled {
                        Some(b) => b,
                        None => false,
                    },
                },
                false,
            ),
        }
    }

    /// What is written of the settings: each of them.
    pub fn save(&self) -> (r: StoredConfig)
        ensures
            r == written_out(*self),
    {
        StoredConfig {
            max_results: Some(self.max_results),
            overfetch_factor: Some(self.overfetch_factor),
            chunk_words: Some(self.chunk_words),
            overlap_words: Some(self.overlap_words),
            encryption_enabled: Some(self.encryption_enabled),
        }
    }
}

/// A setting that the file gives is kept, whatever it is, and one that it leaves out has its default:
/// ten results, five times as many rows, chunks of two hundred words that share fifty, and no
/// encryption. No setting changes another.
pub proof fn law_given_settings_are_kept(s: StoredConfig, n: usize, b: bool)
    ensures
        s.max_results == Some(n) ==> filled_in(s).max_results == n,
        s.max_results is None ==> filled_in(s).max_results == 10,
        s.overfetch_factor == Some(n) ==> filled_in(s).overfetch_factor == n,
        s.overfetch_factor is None ==> filled_in(s).overfetch_factor == 5,
        s.chunk_words == Some(n) ==> filled_in(s).chunk_words == n,
        s.chunk_words is None ==> filled_in(s).chunk_words == 200,
        s.overlap_words == Some(n) ==> filled_in(s).overlap_words == n,
        s.overlap_words is None ==> filled_in(s).overlap_words == 50,
        s.encryption_enabled == Some(b) ==> filled_in(s).encryption_enabled == b,
        s.encryption_enabled is None ==> !filled_in(s).encryption_enabled,
        default_config() == filled_in(
            StoredConfig {
                max_results: None,
                overfetch_factor: None,
                chunk_words: None,
                overlap_words: None,
                encryption_enabled: None,
            },
        ),
{
}

} // verus!
