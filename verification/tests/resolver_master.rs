use roblox_steam_launcher::config::Config;
use roblox_steam_launcher::master::{
    check_if_newest_version, get_intended_arguments, get_launcher_exe_name, get_original_exe_name,
    master_decision, master_plan, parse_menu_choice, program_role, proxy_stage, steam_rungame_uri,
    watch_ceiling_secs, watch_poll_secs, watch_step, MasterPlan, RemoteVersion, Role, WatchAction,
    WatchEvent,
};
use roblox_steam_launcher::numbers::{parse_u64_dec, u64_to_dec_bytes};
use roblox_steam_launcher::resolver::{
    get_newest_roblox_player_directory_path, get_newest_roblox_player_executable_path,
    CandidateDirectory,
};
use roblox_steam_launcher::text::{convert_to_hex_string, quote, string_to_chars};

fn candidate(name: &str, created: u64, has_exe: bool, has_original: bool) -> CandidateDirectory {
    CandidateDirectory {
        name: String::from(name),
        created,
        has_launcher_exe: has_exe,
        has_original_exe: has_original,
    }
}

#[test]
fn resolver_tie_discards_the_round() {
    let dirs = vec![candidate("version-a", 50, true, false), candidate("version-b", 50, true, false)];
    assert_eq!(get_newest_roblox_player_directory_path(&dirs), None);
}

#[test]
fn resolver_picks_the_newer_of_two() {
    let dirs = vec![candidate("older", 10, true, false), candidate("newer", 20, true, false)];
    assert_eq!(get_newest_roblox_player_directory_path(&dirs), Some(1));
    let dirs2 = vec![candidate("newer", 20, true, false), candidate("older", 10, true, false)];
    assert_eq!(get_newest_roblox_player_directory_path(&dirs2), Some(0));
}

#[test]
fn resolver_ignores_directories_without_the_executable() {
    let dirs = vec![candidate("bare", 99, false, false), candidate("real", 1, true, false)];
    assert_eq!(get_newest_roblox_player_directory_path(&dirs), Some(1));
    let none = vec![candidate("bare", 1, false, false)];
    assert_eq!(get_newest_roblox_player_directory_path(&none), None);
    assert_eq!(get_newest_roblox_player_directory_path(&vec![]), None);
}

#[test]
fn resolver_tie_loses_even_against_an_earlier_pick() {
    let dirs = vec![
        candidate("old", 10, true, false),
        candidate("tied-a", 30, true, false),
        candidate("tied-b", 30, true, false),
    ];
    assert_eq!(get_newest_roblox_player_directory_path(&dirs), None);
}

#[test]
fn executable_path_requires_the_backup_file() {
    let dirs = vec![candidate("v1", 10, true, false), candidate("v2", 20, true, true)];
    assert_eq!(get_newest_roblox_player_executable_path(&dirs), Some(1));
    let dirs2 = vec![candidate("v1", 10, true, true), candidate("v2", 20, true, false)];
    assert_eq!(get_newest_roblox_player_executable_path(&dirs2), None);
}

#[test]
fn version_check_is_optimistic_on_failure() {
    let local = String::from("version-abc");
    assert!(check_if_newest_version(&RemoteVersion::Unavailable, &local));
    assert!(check_if_newest_version(
        &RemoteVersion::Version(String::from("version-abc")),
        &local
    ));
    assert!(!check_if_newest_version(
        &RemoteVersion::Version(String::from("version-xyz")),
        &local
    ));
}

#[test]
fn failed_remote_query_skips_the_update_path() {
    // A simulated transport error must go straight to apply-and-launch,
    // never into the watch loop.
    let local = String::from("version-1");
    let args = vec![String::from("--play")];
    match master_decision(&RemoteVersion::Unavailable, &local, args) {
        MasterPlan::ApplyAndLaunch(a) => assert_eq!(a, vec![String::from("--play")]),
        other => panic!("expected apply-and-launch, got {:?}", other),
    }
    match master_decision(&RemoteVersion::Unavailable, &local, vec![]) {
        MasterPlan::ApplyOnly => {}
        other => panic!("expected apply-only, got {:?}", other),
    }
}

#[test]
fn stale_version_enters_the_update_path() {
    let local = String::from("version-1");
    let remote = RemoteVersion::Version(String::from("version-2"));
    match master_decision(&remote, &local, vec![String::from("-x")]) {
        MasterPlan::RunUpdate => {}
        other => panic!("expected the update path, got {:?}", other),
    }
    match master_plan(vec![], false) {
        MasterPlan::RunUpdate => {}
        other => panic!("expected the update path, got {:?}", other),
    }
}

#[test]
fn watch_reacts_only_to_the_real_executable() {
    let hit = WatchEvent::Created(String::from("RobloxPlayerLauncher.exe"));
    assert_eq!(watch_step(&hit), WatchAction::ApplyHere);
    let miss = WatchEvent::Created(String::from("other.exe"));
    assert_eq!(watch_step(&miss), WatchAction::KeepWaiting);
    assert_eq!(watch_step(&WatchEvent::Other), WatchAction::KeepWaiting);
    assert_eq!(watch_step(&WatchEvent::TimedOut), WatchAction::KeepWaiting);
    assert_eq!(watch_step(&WatchEvent::Disconnected), WatchAction::Stop);
    assert_eq!(watch_poll_secs(), 10);
    assert_eq!(watch_ceiling_secs(), 120);
}

#[test]
fn fixed_file_names() {
    assert_eq!(get_launcher_exe_name(), "RobloxPlayerLauncher.exe");
    assert_eq!(get_original_exe_name(), "RobloxPlayerLauncher_original.exe");
}

#[test]
fn proxy_stage_stores_arguments_and_names_the_relaunch_uri() {
    let mut c = Config::new();
    c.steam_gameid = String::from("7130");
    let argv = vec![
        String::from("proxy.exe"),
        String::from("--play"),
        String::from("abc123"),
    ];
    let uri = proxy_stage(&mut c, &argv);
    assert_eq!(c.arguments, vec![String::from("--play"), String::from("abc123")]);
    assert_eq!(c.steam_gameid, "7130");
    assert_eq!(uri, "steam://rungameid/7130");
}

#[test]
fn end_to_end_launch_scenario() {
    // Proxy hop: empty mailbox on disk, invoked with the play arguments.
    let mut on_disk = Config::new();
    on_disk.steam_gameid = String::from("99");
    let stored_empty = on_disk.to_json_string();
    let mut proxy_view = Config::from_json_str(&stored_empty).unwrap();
    assert!(proxy_view.arguments.is_empty());
    let argv = vec![
        String::from("RobloxPlayerLauncher.exe"),
        String::from("--play"),
        String::from("abc123"),
    ];
    let _uri = proxy_stage(&mut proxy_view, &argv);
    let stored_filled = proxy_view.to_json_string();
    // The proxy hop only persisted the arguments; launching is the
    // master hop's decision alone.
    // Master hop: read, clear, decide.
    let mut master_view = Config::from_json_str(&stored_filled).unwrap();
    let taken = master_view.take_arguments();
    assert_eq!(taken, vec![String::from("--play"), String::from("abc123")]);
    let cleared = master_view.to_json_string();
    assert_eq!(Config::from_json_str(&cleared).unwrap().arguments, Vec::<String>::new());
    let local = String::from("version-5");
    match master_decision(&RemoteVersion::Version(String::from("version-5")), &local, taken) {
        MasterPlan::ApplyAndLaunch(a) => {
            assert_eq!(a, vec![String::from("--play"), String::from("abc123")]);
        }
        other => panic!("expected apply-and-launch, got {:?}", other),
    }
}

#[test]
fn intended_arguments_drop_the_program_name() {
    let argv = vec![String::from("prog"), String::from("a"), String::from("b")];
    assert_eq!(
        get_intended_arguments(&argv),
        vec![String::from("a"), String::from("b")]
    );
    assert_eq!(
        get_intended_arguments(&vec![String::from("prog")]),
        Vec::<String>::new()
    );
}

#[test]
fn process_role_follows_the_program_name() {
    // The proxy copy runs under the real executable's name and so gets
    // the game's own argument vector untouched.
    assert_eq!(
        program_role(&String::from("RobloxPlayerLauncher.exe")),
        Role::Substitute
    );
    assert_eq!(
        program_role(&String::from("roblox_steam_launcher_substitute.exe")),
        Role::Substitute
    );
    assert_eq!(
        program_role(&String::from("roblox_steam_launcher_installer.exe")),
        Role::Installer
    );
    assert_eq!(
        program_role(&String::from("roblox_steam_launcher_master.exe")),
        Role::Master
    );
    assert_eq!(program_role(&String::from("anything_else")), Role::Master);
}

#[test]
fn rungame_uri_is_exact() {
    assert_eq!(steam_rungame_uri("42"), "steam://rungameid/42");
}

#[test]
fn menu_choice_validation() {
    assert_eq!(parse_menu_choice(&b"0".to_vec(), 2, false), Some(0));
    assert_eq!(parse_menu_choice(&b"1".to_vec(), 2, false), Some(1));
    assert_eq!(parse_menu_choice(&b"2".to_vec(), 2, false), None);
    assert_eq!(parse_menu_choice(&b"2".to_vec(), 2, true), Some(2));
    assert_eq!(parse_menu_choice(&b"3".to_vec(), 2, true), None);
    assert_eq!(parse_menu_choice(&b"".to_vec(), 2, true), None);
    assert_eq!(parse_menu_choice(&b"x".to_vec(), 2, true), None);
    assert_eq!(parse_menu_choice(&b"-1".to_vec(), 2, true), None);
}

#[test]
fn decimal_rendering_is_exact() {
    assert_eq!(u64_to_dec_bytes(0), b"0".to_vec());
    assert_eq!(u64_to_dec_bytes(10), b"10".to_vec());
    assert_eq!(u64_to_dec_bytes(907), b"907".to_vec());
    assert_eq!(
        u64_to_dec_bytes(u64::MAX),
        b"18446744073709551615".to_vec()
    );
}

#[test]
fn decimal_parsing_is_exact() {
    assert_eq!(parse_u64_dec(&b"0".to_vec()), Some(0));
    assert_eq!(parse_u64_dec(&b"0042".to_vec()), Some(42));
    assert_eq!(parse_u64_dec(&b"18446744073709551615".to_vec()), Some(u64::MAX));
    assert_eq!(parse_u64_dec(&b"18446744073709551616".to_vec()), None);
    assert_eq!(parse_u64_dec(&b"".to_vec()), None);
    assert_eq!(parse_u64_dec(&b"1a".to_vec()), None);
    assert_eq!(parse_u64_dec(&b"+1".to_vec()), None);
}

#[test]
fn hex_rendering_matches_the_helper_convention() {
    // Each byte in bare uppercase hexadecimal, without zero padding.
    assert_eq!(convert_to_hex_string("ab"), "6162");
    assert_eq!(convert_to_hex_string("\n"), "A");
    assert_eq!(convert_to_hex_string(""), "");
    assert_eq!(convert_to_hex_string("\"C:\\x\""), "22433A5C7822");
}

#[test]
fn quoting_and_char_bridging() {
    assert_eq!(quote("C:\\Games"), "\"C:\\Games\"");
    let cs = string_to_chars("héllo");
    assert_eq!(cs.len(), 5);
    let back: String = cs.iter().collect();
    assert_eq!(back, "héllo");
}
