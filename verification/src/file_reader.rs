//! What a directory scan hands the route-table builder: one record per
//! discovered configuration file, naming the file, its declared format, and
//! the configuration parsed from it — or nothing, when the file could not be
//! read or parsed, in which case the scan skips it.

use vstd::prelude::*;
use crate::request::RouteConfiguration;

verus! {

/// The declared format of a configuration file, from its extension.
#[derive(Debug, Clone, Copy, PartialEq, Eq, Structural)]
pub enum ConfigFormat {
    Json,
    Yaml,
}

/// One discovered configuration file.
pub struct ScanEntry {
    /// Where the file stands.
    pub path: String,
    /// Its format.
    pub format: ConfigFormat,
    /// Its parsed contents; `None` when reading or parsing failed.
    pub config: Option<RouteConfiguration>,
}

/// The model of a scan entry: the path, the format, and the declared route
/// pattern when the file loaded.
pub struct ScanEntryModel {
    pub path: Seq<char>,
    pub format: ConfigFormat,
    pub url: Option<Seq<char>>,
}

impl ScanEntry {
    pub open spec fn model(&self) -> ScanEntryModel {
        ScanEntryModel {
            path: self.path@,
            format: self.format,
            url: match self.config {
                Some(c) => Some(c.url@),
                None => None,
            },
        }
    }
}

} // verus!
