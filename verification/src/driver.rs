//! The R driver files kept in the cache, and when a cached one can be
//! reused.
use vstd::prelude::*;

use crate::paths::{join_path, joined_path};

verus! {

/// Where a driver lives in the cache: its directory, the file itself, and
/// the file recording the program version that wrote it.
#[derive(Debug)]
pub struct DriverPaths {
    pub dir: String,
    pub path: String,
    pub version_path: String,
}

/// The paths of the driver `file_name` under `cache_dir`.
pub fn driver_paths(cache_dir: &str, file_name: &str) -> (r: DriverPaths)
    ensures
        r.dir@ == joined_path(cache_dir@, "drivers"@),
        r.path@ == joined_path(joined_path(cache_dir@, "drivers"@), file_name@),
        r.version_path@ == joined_path(joined_path(cache_dir@, "drivers"@), file_name@ + ".version"@),
{
    let dir = join_path(cache_dir, "drivers");
    let path = join_path(dir.as_str(), file_name);
    let mut version_name = String::from_str(file_name);
    version_name.append(".version");
    let version_path = join_path(dir.as_str(), version_name.as_str());
    DriverPaths { dir, path, version_path }
}

/// Whether the cached driver can be used as it is: the file exists and its
/// recorded version (`recorded`, where the version file could be read) is
/// this program's `version`.
pub fn driver_is_current(exists: bool, recorded: Option<&str>, version: &str) -> (r: bool)
    ensures
        r == (exists && (recorded matches Some(v) && v@ == version@)),
{
    match recorded {
        Some(v) => exists && crate::text::text_eq(v, version),
        None => false,
    }
}

} // verus!
