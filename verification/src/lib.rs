//! A launcher-substitution library: it keeps a stable proxy executable woven
//! into a directory of rotating versioned game installations, relays one-shot
//! launch arguments through a persisted configuration file, and edits the
//! platform's non-Steam-game shortcut list.

pub mod apply_engine;
pub mod config;
pub mod json;
pub mod master;
pub mod numbers;
pub mod resolver;
pub mod shortcuts;
pub mod text;
pub mod users;
pub mod vdf;

use vstd::prelude::*;

verus! {

/// The fixed name of the persisted configuration file, beside the
/// versioned installation directories.
pub fn get_config_file_name() -> (r: &'static str)
    ensures
        r@ == "roblox_steam_launcher_config.json"@,
{
    "roblox_steam_launcher_config.json"
}

} // verus!
