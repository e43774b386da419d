use raven_gaming::collections::NameSet;
use raven_gaming::games::{
    ago, cover_art, cover_places, default_render_gpu, discover, heroic_games, is_steam_plumbing,
    launch, launch_command, launch_failure, launch_recipe, launchers, library_root, lutris_games,
    lutris_name, named_as_manifest, parse_app_manifest, parse_heroic, parse_launch_options, recipe_with,
    steam_candidates, steam_games, steam_installed, steam_launch_options, steam_libraries,
    steam_roots, title_case, vdf_value, vdf_values, Game, LaunchRecipe, Library, NamedText, Source,
};
use raven_gaming::gpu::{DriverKind, Gpu, Vendor};
use raven_gaming::json::read_json;

/// `integrated` is what classifying would have decided; the launch recipe takes it as given.
fn gpu(vendor: Vendor, internal: bool) -> Gpu {
    Gpu {
        address: "0000:01:00.0".into(),
        vendor,
        vendor_id: 0,
        device_id: 0,
        model: String::new(),
        driver: DriverKind::Unbound,
        module: None,
        card: None,
        render_node: None,
        boot_vga: internal,
        drives_internal_panel: internal,
        integrated: internal,
    }
}

fn names(list: &[&str]) -> NameSet {
    let owned: Vec<String> = list.iter().map(|s| s.to_string()).collect();
    NameSet::of(&owned)
}

fn game(name: &str, source: Source, app_id: Option<&str>) -> Game {
    Game {
        name: name.into(),
        source,
        app_id: app_id.map(|s| s.to_string()),
        size_on_disk: 0,
        last_played: None,
        install_dir: None,
    }
}

#[test]
fn an_app_manifest_becomes_a_game() {
    let manifest = r#"
"AppState"
{
	"appid"		"489830"
	"name"		"The Elder Scrolls V: Skyrim Special Edition"
	"installdir"		"Skyrim Special Edition"
	"LastPlayed"		"1789615365"
	"SizeOnDisk"		"16092533099"
}
"#;
    let game = parse_app_manifest(manifest, "/games/steamapps").unwrap();
    assert_eq!(game.name, "The Elder Scrolls V: Skyrim Special Edition");
    assert_eq!(game.app_id.as_deref(), Some("489830"));
    assert_eq!(game.size_on_disk, 16_092_533_099);
    assert_eq!(game.install_dir.unwrap(), "/games/steamapps/common/Skyrim Special Edition");
}

#[test]
fn steams_own_components_are_not_games() {
    let proton = "\"appid\" \"1493710\"\n\"name\" \"Proton - Experimental\"\n";
    assert!(parse_app_manifest(proton, "/x").is_none());
    let runtime = "\"appid\" \"1391110\"\n\"name\" \"Steam Linux Runtime 2.0 (soldier)\"\n";
    assert!(parse_app_manifest(runtime, "/x").is_none());
    let redist = "\"appid\" \"228980\"\n\"name\" \"Steamworks Common Redistributables\"\n";
    assert!(parse_app_manifest(redist, "/x").is_none());
    assert!(is_steam_plumbing("228980", "Steamworks Common Redistributables"));
    assert!(!is_steam_plumbing("489830", "Skyrim"));
}

#[test]
fn a_manifest_with_no_name_is_skipped() {
    assert!(parse_app_manifest("\"appid\" \"1\"\n", "/x").is_none());
    assert!(parse_app_manifest("", "/x").is_none());
}

#[test]
fn every_library_path_is_found() {
    let vdf = r#"
"libraryfolders"
{
	"0"
	{
		"path"		"/home/someone/.local/share/Steam"
	}
	"1"
	{
		"path"		"/mnt/games/SteamLibrary"
	}
}
"#;
    assert_eq!(
        vdf_values(vdf, "path"),
        vec!["/home/someone/.local/share/Steam", "/mnt/games/SteamLibrary"]
    );
    assert_eq!(vdf_value(vdf, "path").as_deref(), Some("/home/someone/.local/share/Steam"));
    assert_eq!(vdf_value(vdf, "label"), None);
}

#[test]
fn launch_options_belong_to_the_app_above_them() {
    let config = r#"
			"apps"
			{
				"440"
				{
					"LaunchOptions"		"mangohud %command%"
				}
				"570"
				{
					"playtime"		"12"
				}
				"620"
				{
					"LaunchOptions"		"gamemoderun %command%"
				}
			}
"#;
    let options = parse_launch_options(config);
    assert_eq!(options.get("440").map(String::as_str), Some("mangohud %command%"));
    assert_eq!(options.get("620").map(String::as_str), Some("gamemoderun %command%"));
    // An app with no launch options does not get an empty entry.
    assert!(!options.contains_key("570"));
    let both = steam_launch_options(&vec![config.to_string(), String::new()]);
    assert_eq!(both.len(), 2);
}

#[test]
fn a_hybrid_nvidia_laptop_gets_the_offload_variables() {
    let gpus = vec![gpu(Vendor::Nvidia, false), gpu(Vendor::Amd, true)];
    let recipe = launch_recipe(&gpus, &|_: &str| false);
    let options = recipe.steam_launch_options();
    assert!(options.contains("__NV_PRIME_RENDER_OFFLOAD=1"));
    assert!(options.contains("__GLX_VENDOR_LIBRARY_NAME=nvidia"));
    assert!(options.ends_with("%command%"));
    // Nothing is installed, so no wrappers.
    assert!(!options.contains("gamemoderun"));
}

#[test]
fn a_hybrid_amd_laptop_gets_dri_prime() {
    let gpus = vec![gpu(Vendor::Amd, false), gpu(Vendor::Intel, true)];
    let recipe = launch_recipe(&gpus, &|_: &str| false);
    assert_eq!(recipe.steam_launch_options(), "DRI_PRIME=1 %command%");
}

#[test]
fn one_card_needs_no_offload() {
    let gpus = vec![gpu(Vendor::Amd, false)];
    let recipe = launch_recipe(&gpus, &|_: &str| false);
    assert!(recipe.is_empty());
    assert_eq!(recipe.steam_launch_options(), "%command%");
    assert_eq!(LaunchRecipe::default().steam_launch_options(), "%command%");
}

#[test]
fn installed_wrappers_are_added_in_the_right_order() {
    let gpus = vec![gpu(Vendor::Amd, false)];
    let recipe = launch_recipe(&gpus, &|p: &str| matches!(p, "gamemode" | "mangohud"));
    // gamemoderun must be outside mangohud, or the overlay's process is the one that gets the
    // performance governor.
    assert_eq!(recipe.steam_launch_options(), "gamemoderun mangohud %command%");
    assert_eq!(recipe.shell_prefix(), "gamemoderun mangohud");
    assert_eq!(recipe_with(&gpus, &names(&["gamemode", "mangohud"])), recipe);
}

#[test]
fn lutris_file_names_become_titles() {
    assert_eq!(lutris_name("hollow-knight-1699999999").as_deref(), Some("Hollow Knight"));
    assert_eq!(lutris_name("doom").as_deref(), Some("Doom"));
    assert_eq!(lutris_name(""), None);
}

#[test]
fn both_heroic_shapes_are_read() {
    let epic = read_json(r#"{"Fortnite": {"title": "Fortnite", "install_size": 1000}}"#).unwrap();
    let games = parse_heroic(&epic);
    assert_eq!(games.len(), 1);
    assert_eq!(games[0].name, "Fortnite");
    assert_eq!(games[0].size_on_disk, 1000);

    let gog = read_json(
        r#"{"installed": [{"title": "Cyberpunk 2077", "install_path": "/games/cp"}]}"#,
    )
    .unwrap();
    let games = parse_heroic(&gog);
    assert_eq!(games.len(), 1);
    assert_eq!(games[0].name, "Cyberpunk 2077");
}

#[test]
fn only_steam_games_can_be_started_from_here() {
    let mut game = game("Skyrim", Source::Steam, Some("489830"));
    let steam = Some("/usr/bin/steam");
    let (program, url) = launch_command(&game, steam, None).unwrap();
    assert_eq!(program, "/usr/bin/steam");
    assert_eq!(url, "steam://rungameid/489830");
    let (program, url) = launch_command(&game, None, Some("/usr/bin/xdg-open")).unwrap();
    assert_eq!(program, "/usr/bin/xdg-open");
    assert_eq!(url, "steam://rungameid/489830");
    assert!(launch_command(&game, None, None).is_none());
    game.source = Source::Lutris;
    assert!(launch_command(&game, steam, None).is_none());
    game.source = Source::Steam;
    game.app_id = None;
    assert!(launch_command(&game, steam, None).is_none());
}

#[test]
fn an_app_id_that_is_not_a_number_never_reaches_a_command_line() {
    // The id comes from a file on disk, so it is not trusted to be a number just because Steam
    // usually writes one.
    let roots = vec!["/home/me/.local/share/Steam".to_string()];
    for bad in ["", "../../etc", "489830; rm -rf /", "abc"] {
        let game = game("x", Source::Steam, Some(bad));
        assert!(
            launch_command(&game, Some("/usr/bin/steam"), Some("/usr/bin/xdg-open")).is_none(),
            "accepted {bad:?}"
        );
        let places = NameSet::of(&cover_places(&game, &roots));
        assert!(cover_art(&game, &roots, &places).is_none(), "accepted {bad:?}");
    }
}

#[test]
fn last_played_reads_as_english() {
    let now = std::time::SystemTime::now()
        .duration_since(std::time::UNIX_EPOCH)
        .unwrap()
        .as_secs();
    assert_eq!(ago(now, now), "in the last hour");
    assert_eq!(ago(now - 90_000, now), "yesterday");
    assert_eq!(ago(now - 3 * 86_400, now), "3 days ago");
    assert!(ago(now - 100 * 86_400, now).ends_with("months ago"));
}

#[test]
fn covers_are_looked_for_in_every_root() {
    let found = game("Skyrim", Source::Steam, Some("489830"));
    let roots = vec!["/a".to_string(), "/b".into()];
    let places = cover_places(&found, &roots);
    assert!(!places.is_empty());
    let last = places.last().unwrap().clone();
    assert_eq!(cover_art(&found, &roots, &names(&[&last])), Some(last));
    assert_eq!(cover_art(&found, &roots, &names(&[])), None);
}

#[test]
fn a_library_is_found_below_home() {
    let candidates = steam_candidates("/home/me");
    assert!(candidates.contains(&"/home/me/.local/share/Steam".to_string()));
    let directories = names(&["/home/me/.local/share/Steam/steamapps", "/home/me/.steam/steam"]);
    let roots = steam_roots(Some("/home/me"), &directories);
    assert_eq!(roots, ["/home/me/.local/share/Steam"]);
    assert!(steam_roots(None, &directories).is_empty());
    assert!(steam_installed(&names(&["steam"]), &Vec::new()));
    assert!(steam_installed(&names(&[]), &roots));
    assert!(!steam_installed(&names(&[]), &Vec::new()));
    assert!(!library_root(Some("/home/me"), &roots, &directories).is_empty());
}

#[test]
fn libraries_come_from_the_list_in_the_root() {
    let root = "/home/me/.local/share/Steam";
    let own = "/home/me/.local/share/Steam/steamapps";
    let other = "/mnt/games/steamapps";
    let vdf = "\"path\" \"/mnt/games\"\n\"path\" \"/gone\"\n\"path\" \"/mnt/games\"\n";
    let found = steam_libraries(root, Some(vdf), &names(&[own, other]));
    assert_eq!(found, [own, other]);
    assert_eq!(steam_libraries(root, None, &names(&[own, other])), [own]);
}

#[test]
fn the_same_library_is_read_once() {
    let manifest = |name: &str, id: &str| NamedText {
        name: format!("appmanifest_{id}.acf"),
        text: Some(format!("\"appid\" \"{id}\"\n\"name\" \"{name}\"\n\"installdir\" \"{name}\"\n")),
    };
    let library = |path: &str, real: &str| Library {
        path: path.into(),
        real_path: Some(real.into()),
        files: vec![
            manifest("Zelda", "2"),
            manifest("Anno", "1"),
            NamedText { name: "other.txt".into(), text: Some("\"appid\" \"3\"\n\"name\" \"No\"\n".into()) },
        ],
    };
    let found = steam_games(&vec![library("/a/steamapps", "/real"), library("/b/steamapps", "/real")]);
    let listed: Vec<&str> = found.iter().map(|g| g.name.as_str()).collect();
    assert_eq!(listed, ["Zelda", "Anno"]);
}

#[test]
fn games_are_ordered_across_sources() {
    let mut beta = game("Beta", Source::Steam, Some("1"));
    beta.last_played = None;
    let mut alpha = game("alpha", Source::Lutris, None);
    alpha.last_played = None;
    let mut gamma = game("Gamma", Source::Heroic, None);
    gamma.last_played = Some(7);
    let found = discover(vec![beta], vec![alpha], vec![gamma]);
    let listed: Vec<&str> = found.iter().map(|g| g.name.as_str()).collect();
    assert_eq!(listed, ["Gamma", "alpha", "Beta"]);
}

#[test]
fn lutris_and_heroic_files_are_read() {
    let found = lutris_games(&vec!["hollow-knight-1699999999.yml".into(), "notes.txt".into()]);
    assert_eq!(found.len(), 1);
    assert_eq!(found[0].source, Source::Lutris);
    assert_eq!(title_case("dead-cells"), "Dead Cells");
    let files = vec![
        Some(r#"{"Celeste": {"title": "Celeste"}}"#.to_string()),
        None,
        Some("not json".to_string()),
    ];
    let found = heroic_games(&files);
    assert_eq!(found.len(), 1);
    assert_eq!(found[0].name, "Celeste");
    assert_eq!(found[0].source, Source::Heroic);
}

#[test]
fn a_title_takes_a_capital_that_is_longer_than_its_letter() {
    assert_eq!(title_case("ßtraße"), "SStraße");
}

#[test]
fn a_game_says_how_large_it_is_and_when_it_was_played() {
    let mut found = game("Skyrim", Source::Steam, Some("489830"));
    found.size_on_disk = 5_368_709_120;
    found.last_played = Some(1_000_000);
    let detail = found.detail(1_000_000 + 3 * 86_400);
    assert!(detail.contains("5.0 GB"), "{detail}");
    assert!(detail.contains("3 days ago"), "{detail}");
    assert!(launch_failure(&found, "no").contains("Skyrim"));
}

#[test]
fn only_installed_launchers_are_listed() {
    let found = launchers(&names(&["steam", "heroic"]));
    let commands: Vec<&str> = found.iter().map(|l| l.0).collect();
    assert_eq!(commands, ["steam", "heroic"]);
}

#[test]
fn a_game_lands_on_the_card_of_the_desktop() {
    let mut gpus = vec![gpu(Vendor::Nvidia, false), gpu(Vendor::Intel, true)];
    // The one the firmware booted with, whether it renders or not.
    assert_eq!(default_render_gpu(&gpus).unwrap().vendor, Vendor::Intel);
    gpus[0].render_node = Some("/dev/dri/renderD129".into());
    assert_eq!(default_render_gpu(&gpus).unwrap().vendor, Vendor::Intel);
    // Else the first that renders, else the first.
    gpus[1].boot_vga = false;
    assert_eq!(default_render_gpu(&gpus).unwrap().vendor, Vendor::Nvidia);
    gpus[0].render_node = None;
    gpus[1].render_node = Some("/dev/dri/renderD128".into());
    assert_eq!(default_render_gpu(&gpus).unwrap().vendor, Vendor::Intel);
    gpus[1].render_node = None;
    assert_eq!(default_render_gpu(&gpus).unwrap().vendor, Vendor::Nvidia);
    assert!(default_render_gpu(&[]).is_none());
}

#[test]
fn a_game_that_cannot_be_started_says_so() {
    let found = game("Skyrim", Source::Steam, Some("489830"));
    assert_eq!(
        launch(&found, Some("/usr/bin/steam"), None).unwrap(),
        ["/usr/bin/steam", "steam://rungameid/489830"]
    );
    assert_eq!(
        launch(&found, None, None),
        Err("This game cannot be started from here".to_string())
    );
}

#[test]
fn a_manifest_is_told_by_how_its_name_starts() {
    assert!(named_as_manifest("appmanifest_440.acf"));
    assert!(named_as_manifest("appmanifest_440.acf.tmp"));
    assert!(!named_as_manifest("libraryfolders.vdf"));
    assert!(!named_as_manifest("old_appmanifest_440.acf"));
}
