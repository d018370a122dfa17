//! How a store is opened.

use vstd::prelude::*;

verus! {

/// The settings of a store.
#[derive(Debug)]
pub struct StoreConfig {
    /// Where the data lies in the home directory, if not in the usual place.
    pub path: Option<String>,
    /// Whether the database keeps figures about itself.
    pub enable_statistics: bool,
    /// How many files the database may hold open.
    pub max_open_files: u32,
}

impl StoreConfig {
    /// The settings for tests.
    pub fn test_config() -> (c: StoreConfig)
        ensures
            c.path is None,
            !c.enable_statistics,
            c.max_open_files == 512,
    {
        StoreConfig { path: None, enable_statistics: false, max_open_files: 512 }
    }
}

/// A store that is still to be opened: its home directory and its settings.
#[derive(Debug)]
pub struct StoreOpener<'a> {
    pub home_dir: String,
    pub config: &'a StoreConfig,
}

impl<'a> StoreOpener<'a> {
    pub fn new(home_dir: &str, config: &'a StoreConfig) -> (o: StoreOpener<'a>)
        ensures
            o.home_dir@ == home_dir@,
            o.config == config,
    {
        StoreOpener { home_dir: home_dir.to_owned(), config }
    }

    /// Where the data lies in the home directory.
    pub fn data_dir(&self) -> (d: &str)
        ensures
            d@ == (match self.config.path {
                Some(p) => p@,
                None => "data"@,
            }),
    {
        match &self.config.path {
            Some(p) => p.as_str(),
            None => "data",
        }
    }
}

} // verus!
