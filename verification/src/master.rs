//! The decisions of the runtime flow: whether the local version is current,
//! what the master hop does next, how the rendezvous watch loop reacts to
//! each event, and what the proxy hop stores and fires.
//!
//! The surrounding processes perform the network call, the file watching
//! and the process spawning; every choice between their outcomes is made
//! here.

use vstd::prelude::*;

use crate::config::Config;
use crate::numbers::{all_dec_digits, dec_value, parse_u64_dec};

verus! {

/// What the remote version authority reported: a version string, or
/// nothing (any transport failure).
#[derive(Clone, Debug)]
pub enum RemoteVersion {
    Unavailable,
    Version(String),
}

/// Whether the locally resolved version directory is to be treated as
/// current. A failed remote query counts as current: if the check cannot
/// be made, the launch proceeds rather than forcing an update.
pub fn check_if_newest_version(remote: &RemoteVersion, current_version: &String) -> (r: bool)
    ensures
        remote is Unavailable ==> r == true,
        remote matches RemoteVersion::Version(v) ==> r == (v@ == current_version@),
{
    match remote {
        RemoteVersion::Unavailable => true,
        RemoteVersion::Version(v) => v.eq(current_version),
    }
}

/// What the master hop does after the version check.
#[derive(Debug)]
pub enum MasterPlan {
    /// The local version is stale: revert substitution, run the real
    /// updater, and watch for the new executable to appear.
    RunUpdate,
    /// The local version is current and the mailbox was empty: refresh
    /// substitution and exit without launching anything.
    ApplyOnly,
    /// The local version is current and arguments are pending: refresh
    /// substitution and launch the real executable with exactly these.
    ApplyAndLaunch(Vec<String>),
}

/// Chooses the master hop's course from the pending arguments and the
/// version check's outcome.
pub fn master_plan(arguments: Vec<String>, is_current: bool) -> (r: MasterPlan)
    ensures
        !is_current ==> r is RunUpdate,
        is_current && arguments@.len() == 0 ==> r is ApplyOnly,
        is_current && arguments@.len() > 0 ==> (r matches MasterPlan::ApplyAndLaunch(a) && a
            == arguments),
{
    if !is_current {
        MasterPlan::RunUpdate
    } else if arguments.len() == 0 {
        MasterPlan::ApplyOnly
    } else {
        MasterPlan::ApplyAndLaunch(arguments)
    }
}

/// The whole decision in one step: a failed or matching remote query
/// proceeds straight to apply-and-launch (or apply-only); only a remote
/// version that differs from the local one enters the update path.
pub fn master_decision(
    remote: &RemoteVersion,
    current_version: &String,
    arguments: Vec<String>,
) -> (r: MasterPlan)
    ensures
        remote is Unavailable ==> !(r is RunUpdate),
        remote matches RemoteVersion::Version(v) && v@ != current_version@ ==> r is RunUpdate,
        (remote is Unavailable || (remote matches RemoteVersion::Version(v) && v@
            == current_version@)) ==> {
            &&& arguments@.len() == 0 ==> r is ApplyOnly
            &&& arguments@.len() > 0 ==> (r matches MasterPlan::ApplyAndLaunch(a) && a == arguments)
        },
{
    let is_current = check_if_newest_version(remote, current_version);
    master_plan(arguments, is_current)
}

/// One event seen by the rendezvous watch loop.
#[derive(Clone, Debug)]
pub enum WatchEvent {
    /// A file was created, with this file name (its last path component).
    Created(String),
    /// Any other filesystem event.
    Other,
    /// The bounded wait on the event channel ran out.
    TimedOut,
    /// The event channel disconnected.
    Disconnected,
}

/// What the watch loop does after one event.
#[derive(Clone, Copy, PartialEq, Eq, Debug)]
pub enum WatchAction {
    /// The real executable reappeared: apply substitution in its
    /// directory and stop watching.
    ApplyHere,
    /// Keep waiting. A timeout never aborts the wait: the ceiling is
    /// advisory, and hanging is preferred to giving up mid-update.
    KeepWaiting,
    /// The channel is gone; nothing more can arrive.
    Stop,
}

/// The fixed file name of the real executable.
pub open spec fn launcher_exe_name() -> Seq<char> {
    "RobloxPlayerLauncher.exe"@
}

/// The fixed file name of the backup the real executable is moved to.
pub open spec fn original_exe_name() -> Seq<char> {
    "RobloxPlayerLauncher_original.exe"@
}

/// Returns the real executable's file name.
pub fn get_launcher_exe_name() -> (r: String)
    ensures
        r@ == launcher_exe_name(),
{
    String::from_str("RobloxPlayerLauncher.exe")
}

/// Returns the backup file name.
pub fn get_original_exe_name() -> (r: String)
    ensures
        r@ == original_exe_name(),
{
    String::from_str("RobloxPlayerLauncher_original.exe")
}

/// Decides one round of the watch loop: only the creation of a file named
/// exactly like the real executable ends the watch with an apply; a
/// timeout keeps waiting; a disconnected channel stops the loop.
pub fn watch_step(event: &WatchEvent) -> (r: WatchAction)
    ensures
        event matches WatchEvent::Created(nm) ==> r == (if nm@ == launcher_exe_name() {
            WatchAction::ApplyHere
        } else {
            WatchAction::KeepWaiting
        }),
        event is Other ==> r == WatchAction::KeepWaiting,
        event is TimedOut ==> r == WatchAction::KeepWaiting,
        event is Disconnected ==> r == WatchAction::Stop,
{
    match event {
        WatchEvent::Created(nm) => {
            let target = get_launcher_exe_name();
            if nm.eq(&target) {
                WatchAction::ApplyHere
            } else {
                WatchAction::KeepWaiting
            }
        },
        WatchEvent::Other => WatchAction::KeepWaiting,
        WatchEvent::TimedOut => WatchAction::KeepWaiting,
        WatchEvent::Disconnected => WatchAction::Stop,
    }
}

/// The bounded wait of one poll of the event channel, in seconds.
pub fn watch_poll_secs() -> (r: u64)
    ensures
        r == 10,
{
    10
}

/// The advisory overall ceiling on the watch, in seconds: when exceeded it
/// is only reported, never enforced.
pub fn watch_ceiling_secs() -> (r: u64)
    ensures
        r == 120,
{
    120
}


/// Which of the three process roles a deployed copy of the program plays,
/// decided by its own file name: the proxy runs under the real
/// executable's name (or its undeployed source name), the installer under
/// its own, and everything else is a platform-initiated launch, which is
/// the master role.
#[derive(Clone, Copy, PartialEq, Eq, Debug)]
pub enum Role {
    Installer,
    Substitute,
    Master,
}

/// Decides the process role from the program's file name.
pub fn program_role(file_name: &String) -> (r: Role)
    ensures
        file_name@ == "RobloxPlayerLauncher.exe"@ || file_name@
            == "roblox_steam_launcher_substitute.exe"@ ==> r == Role::Substitute,
        file_name@ == "roblox_steam_launcher_installer.exe"@ ==> r == Role::Installer,
        file_name@ != "RobloxPlayerLauncher.exe"@ && file_name@
            != "roblox_steam_launcher_substitute.exe"@ && file_name@
            != "roblox_steam_launcher_installer.exe"@ ==> r == Role::Master,
{
    proof {
        reveal_strlit("RobloxPlayerLauncher.exe");
        reveal_strlit("roblox_steam_launcher_substitute.exe");
        reveal_strlit("roblox_steam_launcher_installer.exe");
        assert("RobloxPlayerLauncher.exe"@.len() == 24);
        assert("roblox_steam_launcher_substitute.exe"@.len() == 36);
        assert("roblox_steam_launcher_installer.exe"@.len() == 35);
    }
    let proxy_name = get_launcher_exe_name();
    let substitute_name = String::from_str("roblox_steam_launcher_substitute.exe");
    let installer_name = String::from_str("roblox_steam_launcher_installer.exe");
    if file_name.eq(&proxy_name) || file_name.eq(&substitute_name) {
        Role::Substitute
    } else if file_name.eq(&installer_name) {
        Role::Installer
    } else {
        Role::Master
    }
}

/// The arguments meant for the real game: everything after the program's
/// own name.
pub fn get_intended_arguments(argv: &Vec<String>) -> (r: Vec<String>)
    requires
        argv@.len() >= 1,
    ensures
        r@ == argv@.skip(1),
{
    let mut r: Vec<String> = Vec::new();
    let mut i: usize = 1;
    while i < argv.len()
        invariant
            1 <= i <= argv@.len(),
            r@ =~= argv@.subrange(1, i as int),
        decreases argv@.len() - i,
    {
        r.push(argv[i].clone());
        proof {
            assert(r@ =~= argv@.subrange(1, i + 1));
        }
        i = i + 1;
    }
    proof {
        assert(argv@.subrange(1, argv@.len() as int) =~= argv@.skip(1));
    }
    r
}

/// The URI that asks the platform to start this game by its identifier.
pub fn steam_rungame_uri(game_id: &str) -> (r: String)
    ensures
        r@ == "steam://rungameid/"@ + game_id@,
{
    String::from_str("steam://rungameid/").concat(game_id)
}

/// The proxy hop's whole decision: store the intended arguments in the
/// mailbox (everything after the program name) and name the URI that
/// relaunches the platform entry. The proxy itself launches nothing else.
pub fn proxy_stage(config: &mut Config, argv: &Vec<String>) -> (r: String)
    requires
        argv@.len() >= 1,
    ensures
        final(config).arguments@ == argv@.skip(1),
        final(config).steam_gameid == old(config).steam_gameid,
        final(config).debug == old(config).debug,
        r@ == "steam://rungameid/"@ + old(config).steam_gameid@,
{
    config.arguments = get_intended_arguments(argv);
    steam_rungame_uri(config.steam_gameid.as_str())
}

/// Validates one interactive menu choice, handed the trimmed input line's
/// bytes: a decimal number below the option count, or equal to it where a
/// trailing skip entry is offered.
pub fn parse_menu_choice(input: &Vec<u8>, num_options: u64, allow_skip: bool) -> (r: Option<u64>)
    ensures
        r is Some <==> input@.len() > 0 && all_dec_digits(input@) && dec_value(input@) <= u64::MAX
            && (dec_value(input@) < num_options || (allow_skip && dec_value(input@)
            == num_options)),
        r matches Some(n) ==> n == dec_value(input@),
{
    match parse_u64_dec(input) {
        Some(n) => {
            if n < num_options || (allow_skip && n == num_options) {
                Some(n)
            } else {
                None
            }
        },
        None => None,
    }
}

} // verus!
