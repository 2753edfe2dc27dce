use std::path::PathBuf;

use paldex::locate::{
    bottle_source, classify, enumerate, order_by_key, is_steam_id, order_worlds, pak_tail, parse_library_paths, players_in,
    resolve_manual, save_tail, scan_bottles, scan_save_games, BottleListing, LocateError, ManualPick, MarkedDir,
    PlayerUid, SaveRoot, SaveSource, World, WorldKind, WorldListing,
};

#[test]
fn pak_tail_matches_the_documented_install_layout() {
    let joined = pak_tail().iter().fold(PathBuf::from("/steam"), |p, c| p.join(c));
    assert!(joined.ends_with("steamapps/common/Palworld/Pal/Content/Paks/Pal-Windows.pak"));
}

/// Verbatim from a Windows machine where Steam sits on `C:` and Palworld on
/// `G:`.
const REAL_VDF: &str = r#"
"libraryfolders"
{
	"0"
	{
		"path"		"C:\\Program Files (x86)\\Steam"
		"label"		""
		"apps"
		{
			"228980"		"128606066"
		}
	}
	"1"
	{
		"path"		"G:\\SteamLibrary"
		"label"		""
		"apps"
		{
			"1623730"		"41175628606"
		}
	}
}
"#;

#[test]
fn library_paths_come_from_the_vdf_with_backslashes_unescaped() {
    let paths: Vec<PathBuf> = parse_library_paths(REAL_VDF).into_iter().map(PathBuf::from).collect();
    assert_eq!(
        paths,
        vec![PathBuf::from(r"C:\Program Files (x86)\Steam"), PathBuf::from(r"G:\SteamLibrary")]
    );
}

#[test]
fn library_paths_ignore_every_other_key() {
    for text in parse_library_paths(REAL_VDF) {
        assert!(text.contains("Steam"), "not a library path: {text}");
    }
}

#[test]
fn save_tail_matches_the_documented_layout() {
    let joined = save_tail().iter().fold(PathBuf::from("/base"), |p, c| p.join(c));
    assert!(joined.ends_with("AppData/Local/Pal/Saved/SaveGames"));
}

#[test]
fn a_vdf_without_paths_yields_none() {
    assert!(parse_library_paths("").is_empty());
    assert!(parse_library_paths("\"label\"\t\"x\"\n").is_empty());
    assert_eq!(parse_library_paths("\"path\" \"D:\\\\Games\"\n"), vec!["D:\\Games".to_string()]);
}

#[test]
fn steam_ids_are_all_digits() {
    assert!(is_steam_id("12345678901234567"));
    assert!(!is_steam_id("not-a-steam-id"));
    assert!(!is_steam_id(""));
    assert!(!is_steam_id("1234a"));
}

#[test]
fn world_kinds_follow_the_two_markers() {
    assert_eq!(classify(true, true), WorldKind::LocalWorld);
    assert_eq!(classify(true, false), WorldKind::LocalWorld);
    assert_eq!(classify(false, true), WorldKind::CoopGuestStub);
    assert_eq!(classify(false, false), WorldKind::Unknown);
}

fn world(id: &str, kind: WorldKind, last_played: Option<u64>) -> World {
    World { id: id.into(), path: format!("/saves/{id}"), kind, last_played, players: Vec::new() }
}

#[test]
fn a_directory_with_neither_marker_is_unknown() {
    let w = world("mystery", classify(false, false), None);
    assert_eq!(w.kind, WorldKind::Unknown);
    assert!(!w.is_trackable());
}

#[test]
fn only_hosted_worlds_are_trackable() {
    let mut hosted = world("hosted", classify(true, false), Some(1));
    hosted.players.push(PlayerUid("00000000000000000000000000000001".into()));
    assert!(hosted.is_trackable());
    assert!(!world("guest", classify(false, true), Some(1)).is_trackable());
}

#[test]
fn worlds_are_ordered_most_recently_played_first_then_by_name() {
    let worlds = vec![
        world("older", WorldKind::LocalWorld, Some(100)),
        world("untimed", WorldKind::Unknown, None),
        world("newer", WorldKind::LocalWorld, Some(200)),
        world("also_older", WorldKind::CoopGuestStub, Some(100)),
    ];
    let ids: Vec<String> = order_worlds(worlds).into_iter().map(|w| w.id).collect();
    assert_eq!(ids, vec!["newer", "also_older", "older", "untimed"]);
}

fn dir(path: &str) -> (String, String) {
    let name = path.rsplit('/').next().unwrap_or_default();
    (path.to_string(), name.to_string())
}

#[test]
fn scan_save_games_keeps_numeric_dirs_and_drops_everything_else() {
    let dirs = vec![dir("/tmp/SaveGames/12345678901234567"), dir("/tmp/SaveGames/not-a-steam-id")];
    let roots = scan_save_games(&dirs, &SaveSource::WindowsSteam);
    assert_eq!(roots.len(), 1);
    assert_eq!(roots[0].steam_id, "12345678901234567");
    assert_eq!(roots[0].path, "/tmp/SaveGames/12345678901234567");
    assert_eq!(roots[0].source, SaveSource::WindowsSteam);
}

#[test]
fn scan_bottles_walks_bottle_and_windows_user_names() {
    let bottles = vec![BottleListing {
        name: "My Games Bottle".to_string(),
        users: vec![vec![dir(
            "/b/My Games Bottle/drive_c/users/someone/AppData/Local/Pal/Saved/SaveGames/12345678901234567",
        )]],
    }];
    let roots = scan_bottles(&bottles, false);
    assert_eq!(roots.len(), 1);
    assert_eq!(roots[0].source, SaveSource::CrossOver { bottle: "My Games Bottle".to_owned() });
}

#[test]
fn scan_bottles_marks_whisky_separately() {
    let bottles = vec![BottleListing {
        name: "b1".to_string(),
        users: vec![vec![dir("/b/b1/drive_c/users/crossover/AppData/Local/Pal/Saved/SaveGames/1")]],
    }];
    let roots = scan_bottles(&bottles, true);
    assert_eq!(roots[0].source, SaveSource::Whisky { bottle: "b1".to_owned() });
    assert_eq!(bottle_source("b2".into(), false), SaveSource::CrossOver { bottle: "b2".into() });
}

#[test]
fn missing_and_unreadable_directories_are_not_errors() {
    assert!(scan_bottles(&[], false).is_empty());
    assert!(scan_save_games(&[], &SaveSource::Manual).is_empty());
    let empty_bottle = BottleListing { name: "empty".into(), users: vec![vec![], vec![]] };
    assert!(scan_bottles(&[empty_bottle], true).is_empty());
}

fn marked(path: &str, level: bool, local: bool) -> MarkedDir {
    let (path, name) = dir(path);
    MarkedDir { path, name, has_level_sav: level, has_local_data_sav: local }
}

fn pick(dir: MarkedDir, parent: Option<&str>, children: Vec<MarkedDir>, nested: Vec<(String, String)>) -> ManualPick {
    ManualPick { dir, is_dir: true, parent: parent.map(dir_parent), children, nested }
}

fn dir_parent(p: &str) -> (String, String) {
    dir(p)
}

#[test]
fn resolve_manual_accepts_a_world_directory() {
    let world = marked("/t/12345678901234567/ABC123", true, false);
    let roots = resolve_manual(&pick(world, Some("/t/12345678901234567"), vec![], vec![])).unwrap();
    assert_eq!(roots.len(), 1);
    assert_eq!(roots[0].steam_id, "12345678901234567");
    assert_eq!(roots[0].source, SaveSource::Manual);
}

#[test]
fn resolve_manual_accepts_a_steam_id_directory() {
    let steam = marked("/t/12345678901234567", false, false);
    let children = vec![marked("/t/12345678901234567/ABC123", false, true)];
    let roots = resolve_manual(&pick(steam, Some("/t"), children, vec![])).unwrap();
    assert_eq!(roots.len(), 1);
    assert_eq!(roots[0].path, "/t/12345678901234567");
    assert_eq!(roots[0].steam_id, "12345678901234567");
}

#[test]
fn resolve_manual_accepts_a_save_games_directory() {
    let save_games = marked("/t/SaveGames", false, false);
    let children = vec![marked("/t/SaveGames/12345678901234567", false, false)];
    let roots = resolve_manual(&pick(save_games, Some("/t"), children, vec![])).unwrap();
    assert_eq!(roots.len(), 1);
    assert_eq!(roots[0].steam_id, "12345678901234567");
}

#[test]
fn resolve_manual_looks_below_the_save_tail() {
    let home = marked("/home/user", false, false);
    let nested = vec![dir("/home/user/AppData/Local/Pal/Saved/SaveGames/7")];
    let roots = resolve_manual(&pick(home, Some("/home"), vec![marked("/home/user/Documents", false, false)], nested))
        .unwrap();
    assert_eq!(roots, vec![SaveRoot {
        path: "/home/user/AppData/Local/Pal/Saved/SaveGames/7".into(),
        source: SaveSource::Manual,
        steam_id: "7".into(),
    }]);
}

#[test]
fn resolve_manual_reports_a_directory_with_no_saves() {
    let err = resolve_manual(&pick(marked("/t/empty", false, false), Some("/t"), vec![], vec![])).unwrap_err();
    assert!(matches!(err, LocateError::NoSavesFound(_)));
    assert_eq!(err.message(), "no Palworld saves found in /t/empty");
}

#[test]
fn resolve_manual_rejects_a_missing_path() {
    let missing = ManualPick {
        dir: marked("/nope/does/not/exist", false, false),
        is_dir: false,
        parent: Some(dir("/nope/does/not")),
        children: vec![],
        nested: vec![],
    };
    let err = resolve_manual(&missing).unwrap_err();
    assert!(matches!(err, LocateError::NotADirectory(_)));
    assert_eq!(err.message(), "not a directory: /nope/does/not/exist");
}

fn listing(name: &str, level: bool, local: bool, modified: u64, players: &[&str]) -> WorldListing {
    WorldListing {
        path: format!("/root/{name}"),
        name: name.into(),
        has_level_sav: level,
        has_local_data_sav: local,
        level_sav_modified: if level { Some(modified) } else { None },
        local_data_modified: if local { Some(modified + 1) } else { None },
        dir_modified: Some(modified + 2),
        player_files: players.iter().map(|p| p.to_string()).collect(),
    }
}

fn realistic_root() -> Vec<WorldListing> {
    let mut dirs = vec![listing(
        "11111111111111111111111111111111",
        true,
        true,
        100,
        &[
            "22222222222222222222222222222222.sav",
            "22222222222222222222222222222222_dps.sav",
            "00000000000000000000000000000001.sav",
            "00000000000000000000000000000001_dps.sav",
        ],
    )];
    for (i, id) in [
        "33333333333333333333333333333333",
        "44444444444444444444444444444444",
        "55555555555555555555555555555555",
        "66666666666666666666666666666666",
        "77777777777777777777777777777777",
    ]
    .iter()
    .enumerate()
    {
        dirs.push(listing(id, false, true, 10 * i as u64, &[]));
    }
    dirs
}

#[test]
fn classifies_one_hosted_world_and_five_guest_stubs() {
    let worlds = enumerate(&realistic_root());
    assert_eq!(worlds.len(), 6);
    assert_eq!(worlds.iter().filter(|w| w.kind == WorldKind::LocalWorld).count(), 1);
    assert_eq!(worlds.iter().filter(|w| w.kind == WorldKind::CoopGuestStub).count(), 5);
}

#[test]
fn dps_files_do_not_double_count_players() {
    let worlds = enumerate(&realistic_root());
    let hosted = worlds.iter().find(|w| w.kind == WorldKind::LocalWorld).expect("hosted world");
    assert_eq!(
        hosted.players,
        vec![
            PlayerUid("00000000000000000000000000000001".into()),
            PlayerUid("22222222222222222222222222222222".into()),
        ]
    );
    assert!(hosted.is_trackable());
}

#[test]
fn guest_stubs_have_no_players_and_are_not_trackable() {
    for w in enumerate(&realistic_root()).iter().filter(|w| w.kind == WorldKind::CoopGuestStub) {
        assert!(w.players.is_empty());
        assert!(!w.is_trackable());
    }
}

#[test]
fn world_worlds_are_ordered_most_recently_played_first() {
    let worlds = enumerate(&[listing("older", true, false, 1, &[]), listing("newer", true, false, 2, &[])]);
    assert_eq!(worlds[0].id, "newer");
    assert_eq!(worlds[1].id, "older");
    // Each kind is timed by its own marker file.
    let guest = enumerate(&[listing("guest", false, true, 5, &[])]);
    assert_eq!(guest[0].last_played, Some(6));
    let unknown = enumerate(&[listing("unknown", false, false, 5, &[])]);
    assert_eq!(unknown[0].last_played, Some(7));
}

#[test]
fn missing_root_yields_no_worlds() {
    assert!(enumerate(&[]).is_empty());
}

#[test]
fn player_files_need_a_sav_extension_in_any_case() {
    let files: Vec<String> =
        ["b.SAV", "a.sav", ".sav", "c.sav.bak", "d", "e_dps.sav", "f.g.sav", "_dps.sav"].iter().map(|s| s.to_string()).collect();
    let uids: Vec<String> = players_in(&files).into_iter().map(|u| u.0).collect();
    assert_eq!(uids, vec!["a", "b", "f.g"]);
}

#[test]
fn a_guest_stub_lists_no_players_even_with_player_files() {
    let stub = listing("guest", false, true, 5, &["00000000000000000000000000000001.sav"]);
    let worlds = enumerate(&[stub]);
    assert_eq!(worlds[0].kind, WorldKind::CoopGuestStub);
    assert!(worlds[0].players.is_empty());
    let unknown = enumerate(&[listing("odd", false, false, 5, &["00000000000000000000000000000001.sav"])]);
    assert_eq!(unknown[0].players.len(), 1);
}

#[test]
fn ordering_by_key_sorts_and_keeps_the_first_of_each_key() {
    let items = vec![
        ("b".to_string(), 1),
        ("a".to_string(), 2),
        ("b".to_string(), 3),
        ("c".to_string(), 4),
        ("a".to_string(), 5),
    ];
    let out = order_by_key(items);
    assert_eq!(out, vec![("a".to_string(), 2), ("b".to_string(), 1), ("c".to_string(), 4)]);
    assert!(order_by_key(Vec::<(String, u8)>::new()).is_empty());
}
