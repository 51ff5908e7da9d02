//! The configuration value: whether to keep the package cache, whether
//! the builder may skip confirmation, and how verbose it is. Reading and
//! writing the configuration file is the caller's job.

use vstd::prelude::*;

verus! {

/// Well-known location of the package cache.
pub const CACHE_PATH: &'static str = "~/.cache/aurme";

/// Well-known location of the per-package build cache.
pub const PACKAGES_CACHE_PATH: &'static str = "~/.cache/aurme/packages";

/// Well-known location of the configuration file.
pub const CONFIG_PATH: &'static str = "~/.config/aurme/config.json";

/// Well-known location of the persisted index.
pub const DB_PATH: &'static str = "~/.cache/aurme/packages-meta.data";

/// How talkative the builder subprocess is allowed to be.
#[derive(Debug, Clone, Copy, PartialEq, Eq, Structural)]
pub enum VerboseOtion {
    Quiet,
    Default,
    Verbose,
}

/// The user's configuration.
#[derive(Debug, Clone, Copy, PartialEq, Eq, Structural)]
pub struct Config {
    pub keep_cache: bool,
    pub no_confirm: bool,
    pub verbose: VerboseOtion,
}

impl Config {
    /// The configuration used when none is stored: artefacts are kept,
    /// confirmations are asked, output is the default.
    pub fn default() -> (r: Config)
        ensures
            r.keep_cache == true,
            r.no_confirm == false,
            r.verbose == VerboseOtion::Default,
    {
        Config { keep_cache: true, no_confirm: false, verbose: VerboseOtion::Default }
    }
}

} // verus!
