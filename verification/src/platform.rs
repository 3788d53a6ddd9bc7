//! Per-user locations: the home directory (from the `dirs` crate) and the
//! two fixed files under it — the configuration document and the service
//! descriptor. The joins are verified; only the environment query is
//! trusted.

use vstd::prelude::*;
use crate::resolve::join_path;
use crate::resolve::join_path_spec;

verus! {

/// The configuration document's location under a home directory.
pub open spec fn config_file_of(home: Seq<char>) -> Seq<char> {
    join_path_spec(home, ".lapsus_menubar_config.json"@)
}

/// The service descriptor's location under a home directory: the file
/// whose presence routes start/stop through the service manager.
pub open spec fn descriptor_of(home: Seq<char>) -> Seq<char> {
    join_path_spec(home, "Library/LaunchAgents/com.lapsus.rust.plist"@)
}

/// The per-user locations the supervisor works with.
pub struct UserPaths {
    pub home: String,
    pub config_file: String,
    pub descriptor: String,
}

/// Relies on dirs::home_dir: the per-user home directory, read from the
/// environment, so nothing is claimed of the value.
#[verifier::external_body]
fn home_dir_string() -> Option<String> {
    dirs::home_dir().map(|p| p.to_string_lossy().into_owned())
}

/// The per-user locations, each derived from whatever home directory the
/// environment reports; nothing when it reports none.
pub fn user_paths() -> (r: Option<UserPaths>)
    ensures
        r matches Some(u) ==> u.config_file@ == config_file_of(u.home@) && u.descriptor@
            == descriptor_of(u.home@),
{
    match home_dir_string() {
        None => None,
        Some(h) => {
            let config_file = join_path(h.as_str(), ".lapsus_menubar_config.json");
            let descriptor = join_path(h.as_str(), "Library/LaunchAgents/com.lapsus.rust.plist");
            Some(UserPaths { home: h, config_file, descriptor })
        },
    }
}

} // verus!
