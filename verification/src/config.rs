//! The run configuration: already-validated inputs that drive one run.
//!
//! Loading the values from a file is an outside concern; this crate only
//! holds them and fixes their defaults.

use vstd::prelude::*;
use vstd::string::StringExecFns;

verus! {

/// Which render pipeline a run feeds.
#[derive(Clone, Copy, Debug, PartialEq, Eq, Structural)]
pub enum Version {
    V1,
    V2,
}

/// One configured upstream source: a result-count limit, the display
/// title its papers are filed under, and the category to query.
#[derive(Clone, Debug)]
pub struct Source {
    pub limit: i32,
    pub title: String,
    pub category: String,
}

/// The whole run configuration.
///
/// `scripts` pairs each helper name with the path of its script; the pairs
/// are held in the order the loader hands them over.
#[derive(Debug)]
pub struct Config {
    pub version: Version,
    pub limit_days: i64,
    pub site_title: String,
    pub target_dir: String,
    pub statics_dir: String,
    pub templates_dir: String,
    pub proxy: Option<String>,
    pub cache_url: Option<String>,
    pub target_name: Option<String>,
    pub sources: Vec<Source>,
    pub scripts: Vec<(String, String)>,
}

impl Default for Config {
    /// The defaults a configuration file overrides: render pipeline one,
    /// a one-day window, this crate's name as the site title, and the
    /// conventional directories.
    fn default() -> (c: Config)
        ensures
            c.version == Version::V1,
            c.limit_days == 1,
            c.site_title@ == "arxiv_daily"@,
            c.target_dir@ == "target"@,
            c.statics_dir@ == "statics"@,
            c.templates_dir@ == "includes"@,
            c.proxy is None,
            c.cache_url is None,
            c.target_name is None,
            c.sources@.len() == 0,
            c.scripts@.len() == 0,
    {
        Config {
            version: Version::V1,
            limit_days: 1,
            site_title: String::from_str("arxiv_daily"),
            target_dir: String::from_str("target"),
            statics_dir: String::from_str("statics"),
            templates_dir: String::from_str("includes"),
            proxy: None,
            cache_url: None,
            target_name: None,
            sources: Vec::new(),
            scripts: Vec::new(),
        }
    }
}

} // verus!
