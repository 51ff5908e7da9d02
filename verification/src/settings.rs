//! User settings: where the package cache lives and how the builder is
//! driven. Reading and writing the settings file is the caller's job;
//! this is the value it hands around.

use vstd::prelude::*;

verus! {

/// The settings a user can persist.
#[derive(Debug, Clone)]
pub struct Settings {
    cache_path: String,
    keep_cache: bool,
    no_confirm: bool,
    verbose: String,
}

impl Settings {
    /// The configured cache path.
    pub closed spec fn spec_cache_path(&self) -> Seq<char> {
        self.cache_path@
    }

    /// Whether build artefacts are kept after an install.
    pub closed spec fn spec_keep_cache(&self) -> bool {
        self.keep_cache
    }

    /// Whether the builder runs without confirmation prompts.
    pub closed spec fn spec_no_confirm(&self) -> bool {
        self.no_confirm
    }

    /// The configured verbosity word.
    pub closed spec fn spec_verbose(&self) -> Seq<char> {
        self.verbose@
    }

    /// Builds a settings value from its four fields.
    pub fn new(cache_path: String, keep_cache: bool, no_confirm: bool, verbose: String) -> (r:
        Settings)
        ensures
            r.spec_cache_path() == cache_path@,
            r.spec_keep_cache() == keep_cache,
            r.spec_no_confirm() == no_confirm,
            r.spec_verbose() == verbose@,
    {
        Settings { cache_path, keep_cache, no_confirm, verbose }
    }

    pub fn get_cache_path(&self) -> (r: &str)
        ensures
            r@ == self.spec_cache_path(),
    {
        self.cache_path.as_str()
    }

    pub fn get_keep_cache(&self) -> (r: bool)
        ensures
            r == self.spec_keep_cache(),
    {
        self.keep_cache
    }

    pub fn get_no_confirm(&self) -> (r: bool)
        ensures
            r == self.spec_no_confirm(),
    {
        self.no_confirm
    }

    pub fn get_verbose(&self) -> (r: &str)
        ensures
            r@ == self.spec_verbose(),
    {
        self.verbose.as_str()
    }
}

} // verus!
