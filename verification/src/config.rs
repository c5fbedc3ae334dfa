//! The settings that outlive a session: where to scan, and how old a cache
//! directory must be to be shown.

use vstd::prelude::*;

verus! {

/// The age threshold of a configuration that was never changed.
pub const DEFAULT_THRESHOLD_DAYS: u32 = 30;

/// The largest age threshold that can be set.
pub const MAX_THRESHOLD_DAYS: u32 = 365;

/// The settings of the cleaner.
#[derive(Debug, PartialEq, Eq)]
pub struct Config {
    /// The directory below which cache directories are looked for.
    pub scan_path: String,
    /// The age in days from which a cache directory is shown.
    pub threshold_days: u32,
}

/// The mathematical value of a [`Config`].
pub struct ConfigView {
    pub scan_path: Seq<char>,
    pub threshold_days: u32,
}

impl View for Config {
    type V = ConfigView;

    open spec fn view(&self) -> ConfigView {
        ConfigView { scan_path: self.scan_path@, threshold_days: self.threshold_days }
    }
}

/// The configuration of a first start: the home directory, or the current
/// directory where there is no home, and the default threshold.
pub open spec fn default_config(home: Option<String>) -> ConfigView {
    ConfigView {
        scan_path: match home {
            Some(dir) => dir@,
            None => "."@,
        },
        threshold_days: DEFAULT_THRESHOLD_DAYS,
    }
}

impl Clone for Config {
    fn clone(&self) -> (copy: Self)
        ensures
            copy@ == self@,
    {
        Config { scan_path: self.scan_path.clone(), threshold_days: self.threshold_days }
    }
}

impl Config {
    /// The configuration of a first start.
    pub fn default_in(home: Option<String>) -> (config: Config)
        ensures
            config@ == default_config(home),
    {
        let scan_path = match home {
            Some(dir) => dir,
            None => ".".to_owned(),
        };
        Config { scan_path, threshold_days: DEFAULT_THRESHOLD_DAYS }
    }

    /// The configuration to start with: the stored one where one could be
    /// read, else that of a first start.
    pub fn load(stored: Option<Config>, home: Option<String>) -> (config: Config)
        ensures
            config@ == match stored {
                Some(kept) => kept@,
                None => default_config(home),
            },
    {
        match stored {
            Some(kept) => kept,
            None => Config::default_in(home),
        }
    }
}

} // verus!
