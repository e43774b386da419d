use raven_gaming::capture::Recording;
use raven_gaming::checks::{Fix, Observed, State, System};
use raven_gaming::clips::{capture_page, is_deletable_recording, live_line, recording_row};
use raven_gaming::collections::{NameSet, TextMap};
use raven_gaming::dialogs::{
    clear_answered, clear_outcome, confirm_clear_cache, confirm_delete_recording, confirm_revert,
    delete_answered, delete_outcome, Answered,
};
use raven_gaming::drivers::{DkmsModule, Kernel, Requirement};
use raven_gaming::games::{Game, LaunchRecipe, Source};
use raven_gaming::gpu::{DriverKind, Gpu, Vendor, VulkanIcd};
use raven_gaming::graphics::{
    dkms_section, extras_section, gpu_card, graphics_page, hybrid_row, installable,
    vulkan_section, vulkan_toast, VulkanTest,
};
use raven_gaming::library::{
    cover_letter, empty_shelf, game_row, game_tile, games_page, recipe_section, shelf, tile_menu,
    Options, Surroundings, SHELF_SIZE,
};
use raven_gaming::overview::{
    choose_mode, choose_preset, clocks_quick_card, current_display_mode, display_quick_card,
    gaming_index, hero_capture, hero_card, hero_readiness, profile_quick_card, readiness_card,
    switch_moved, tuning_quick_card, Monitor, SwitchStep,
};
use raven_gaming::performance::{
    choose_clocks, clock_policy, clock_rows, gpu_mode_row, performance_page, preset_actions,
    preset_cards, preset_toast, shader_cache_section, tunable_cards, tweak_section, ClockStep,
};
use raven_gaming::rail::{
    open_terminal, quick_actions, run_detached, run_failure, status_card, storage_meter,
    vram_meter, RailAction,
};
use raven_gaming::telemetry::{GpuReading, Usage};
use raven_gaming::tune::{mode_file_of, Action, GpuMode, Preset, Settings};
use raven_gaming::view::{check_rows, fix_button, row_for, Item, Press, Trailing};

fn names(list: &[&str]) -> NameSet {
    let owned: Vec<String> = list.iter().map(|s| s.to_string()).collect();
    NameSet::of(&owned)
}

fn card(address: &str, vendor: Vendor, integrated: bool, name: Option<&str>) -> Gpu {
    Gpu {
        address: address.into(),
        vendor,
        vendor_id: 0x1002,
        device_id: 0x15d8,
        model: format!("Card {address}"),
        driver: DriverKind::Amdgpu,
        module: None,
        card: name.map(|s| s.to_string()),
        render_node: Some("/dev/dri/renderD128".into()),
        boot_vga: integrated,
        drives_internal_panel: integrated,
        integrated,
    }
}

fn laptop() -> Vec<Gpu> {
    vec![
        card("a", Vendor::Intel, true, Some("card0")),
        card("b", Vendor::Amd, false, Some("card1")),
    ]
}

fn settings(applied: bool) -> Settings {
    let value = |v: &str| if applied { Some(v.to_string()) } else { Some("1".to_string()) };
    Settings {
        max_map_count: value("2147483642"),
        split_lock_mitigate: value("0"),
        swappiness: if applied { Some("10".into()) } else { Some("60".into()) },
        limits: value("Max open files 1048576 1048576 files"),
        sysctl_file: applied,
        limits_file: applied,
    }
}

fn system(gpus: Vec<Gpu>, good: bool) -> System {
    System::read(
        gpus,
        if good {
            names(&[
                "mesa", "lib32-mesa", "vulkan-radeon", "lib32-vulkan-radeon", "vulkan-intel",
                "lib32-vulkan-intel", "vulkan-icd-loader", "lib32-vulkan-icd-loader", "gamemode",
                "lib32-gamemode", "mangohud", "lib32-mangohud", "gamescope", "steam",
            ])
        } else {
            NameSet::new()
        },
        vec![Kernel { release: "6.1".into(), running: true }],
        Vec::new(),
        Observed {
            dkms_available: true,
            icds: vec![VulkanIcd {
                file: "radeon_icd.json".into(),
                vendor: Vendor::Amd,
                library_present: true,
            }],
            vulkaninfo: true,
            has_32bit_stack: good,
            settings: settings(good),
            steam_installed: good,
            games: 1,
        },
    )
}

fn game(name: &str) -> Game {
    Game {
        name: name.into(),
        source: Source::Steam,
        app_id: Some("489830".into()),
        size_on_disk: 1024,
        last_played: None,
        install_dir: Some("/games/x".into()),
    }
}

fn recording(path: &str) -> Recording {
    Recording {
        path: path.into(),
        bytes: 1024,
        modified: Some(1),
        width: 1920,
        height: 1080,
        duration: Some(9_000_000),
        complete: true,
        exported: None,
    }
}

fn around() -> Surroundings {
    Surroundings {
        roots: vec!["/s".into()],
        files: NameSet::new(),
        directories: names(&["/games/x"]),
        steam: Some("/usr/bin/steam".into()),
        xdg_open: None,
    }
}

#[test]
fn a_fix_is_offered_as_a_button() {
    let problem = raven_gaming::checks::Check::problem(
        "x",
        "y",
        Some(Fix::Install(vec!["mesa".into()])),
    );
    match row_for(&problem).trailing {
        Trailing::Button(button) => {
            assert_eq!(button.press, Press::Fixes(vec![Fix::Install(vec!["mesa".into()])]));
        }
        other => panic!("{other:?}"),
    }
    assert_eq!(fix_button(&None), Trailing::Nothing);
    assert_eq!(fix_button(&Some(Fix::Manual("x"))), Trailing::Nothing);
    let advice = raven_gaming::checks::Check::problem("x", "y", Some(Fix::Manual("do it")));
    assert_eq!(row_for(&advice).detail, "y\n\ndo it");
    assert_eq!(check_rows(&vec![problem, advice]).len(), 2);
}

#[test]
fn the_readiness_slide_says_what_is_left() {
    let good = hero_readiness(&system(vec![card("b", Vendor::Amd, false, None)], true));
    assert_eq!(good.title, "Ready to play");
    let bad = hero_readiness(&system(Vec::new(), false));
    assert!(bad.action.is_some());
    assert!(bad.lede.contains(" Fixing it means "));
    assert!(bad.features.len() <= 3);
    for feature in &bad.features {
        assert!(feature.detail.chars().count() <= 60);
    }
    assert!(matches!(bad.action.unwrap().press, Press::Fixes(_)));
}

#[test]
fn the_card_slide_names_the_card_played_on() {
    let slide = hero_card(&laptop());
    assert_eq!(slide.title, "Card b");
    assert!(slide.lede.starts_with("The faster of the two"));
    assert_eq!(gaming_index(&laptop()), Some(1));
    let alone = hero_card(&vec![card("b", Vendor::Amd, false, None)]);
    assert_eq!(alone.lede, "The card every game in this machine renders on.");
    let none = hero_card(&Vec::new());
    assert_eq!(none.title, "No graphics card found");
    assert!(none.action.is_none() && none.features.is_empty());
    assert_eq!(gaming_index(&Vec::new()), None);
}

#[test]
fn the_capture_slide_counts() {
    assert_eq!(hero_capture(0, true).features[1].title, "Nothing recorded yet");
    assert_eq!(hero_capture(1, true).features[1].title, "1 recording kept");
    assert_eq!(hero_capture(2, false).features[1].title, "2 recordings kept");
    assert_eq!(hero_capture(2, false).features[2].title, "raven-export missing");
    assert_eq!(hero_capture(2, true).features[2].title, "Export to MP4");
}

#[test]
fn a_profile_is_chosen_where_one_is_active() {
    let card = profile_quick_card(Some(Preset::Performance));
    assert!(card.lit);
    assert_eq!(card.selected, Some(2));
    assert_eq!(card.foot, Preset::Performance.description());
    assert_eq!(profile_quick_card(None).selected, None);
    assert_eq!(choose_preset(Some(Preset::Quiet), 0), None);
    assert_eq!(choose_preset(Some(Preset::Quiet), 1), Some(Preset::Balanced));
    assert_eq!(choose_preset(None, 2), Some(Preset::Performance));
    assert_eq!(choose_preset(None, 3), None);
}

#[test]
fn clocks_are_chosen_on_the_first_card_with_a_policy() {
    let path = mode_file_of("card1");
    let files = names(&[&path]);
    let mut texts = TextMap::new();
    texts.insert(path.clone(), "high\n".into());
    let card = clocks_quick_card(&laptop(), &files, &texts);
    assert!(card.lit);
    assert_eq!(card.selected, Some(2));
    assert_eq!(card.foot, "On Card b");
    assert_eq!(card.card.as_deref(), Some("card1"));
    let without = clocks_quick_card(&laptop(), &NameSet::new(), &texts);
    assert_eq!(without.value.as_deref(), Some(DriverKind::Amdgpu.label()));
    assert_eq!(clocks_quick_card(&Vec::new(), &files, &texts).value.as_deref(), Some("No card"));
    assert_eq!(choose_mode(Some(GpuMode::High), Some("card1"), 2), None);
    let change = choose_mode(Some(GpuMode::High), Some("card1"), 0).unwrap();
    assert_eq!(change.action, Action::GpuMode { card: "card1".into(), mode: GpuMode::Low });
    assert_eq!(change.said, format!("{} clocks", GpuMode::Low.title()));
    assert_eq!(choose_mode(None, None, 0), None);
    assert_eq!(choose_mode(None, Some("card1"), 3), None);
}

#[test]
fn the_largest_monitor_is_described() {
    let small = Monitor { width: 1280, height: 720, scale: 1, refresh: 60_000 };
    let large = Monitor { width: 1920, height: 1080, scale: 2, refresh: 143_981 };
    assert_eq!(
        current_display_mode(&vec![small, large, small]).as_deref(),
        Some("3840 × 2160 · 144 Hz")
    );
    let quiet = Monitor { width: 800, height: 600, scale: 0, refresh: 0 };
    assert_eq!(current_display_mode(&vec![quiet]).as_deref(), Some("800 × 600"));
    assert_eq!(current_display_mode(&Vec::new()), None);
    // Of equals the last, and halves round up.
    let first = Monitor { width: 10, height: 20, scale: 1, refresh: 59_500 };
    let second = Monitor { width: 20, height: 10, scale: 1, refresh: 59_499 };
    assert_eq!(current_display_mode(&vec![second, first]).as_deref(), Some("10 × 20 · 60 Hz"));
    assert_eq!(current_display_mode(&vec![first, second]).as_deref(), Some("20 × 10 · 59 Hz"));
    assert_eq!(display_quick_card(&Vec::new(), true).value, "Unknown");
}

#[test]
fn a_switch_never_shows_what_was_only_asked_for() {
    assert_eq!(switch_moved(true, true), SwitchStep::Proceed);
    assert_eq!(switch_moved(false, false), SwitchStep::Proceed);
    assert_eq!(switch_moved(false, true), SwitchStep::Apply);
    assert_eq!(switch_moved(true, false), SwitchStep::AskToRevert);
    assert!(tuning_quick_card(&settings(true)).applied);
    assert_eq!(tuning_quick_card(&settings(false)).value, "Not applied");
}

#[test]
fn the_readiness_list_counts_what_is_clear() {
    let list = readiness_card(&system(Vec::new(), false));
    assert!(list.badge.contains(" of ") && list.badge.ends_with(" clear"));
    assert_eq!(list.class, "warning");
    let status = status_card(&system(Vec::new(), false));
    assert_eq!(status.class, "warn");
    assert!(status.summary.ends_with("checks clear"));
    let status = status_card(&system(vec![card("b", Vendor::Amd, false, None)], true));
    assert_eq!(status.summary, "All systems ready");
}

#[test]
fn meters_show_only_what_is_known() {
    let reading = GpuReading {
        memory_used_mb: Some(2048),
        memory_total_mb: Some(6144),
        ..Default::default()
    };
    assert_eq!(vram_meter(Some(&reading)).unwrap().figures, "2.0 / 6.0 GB");
    assert_eq!(vram_meter(None), None);
    assert_eq!(vram_meter(Some(&GpuReading::default())), None);
    let full = storage_meter(Usage { used: 1024, total: 2048 }).unwrap();
    assert_eq!((full.used, full.total, full.figures.as_str()), (1024, 2048, "1.0 KB / 2.0 KB"));
    assert_eq!(storage_meter(Usage::default()), None);
}

#[test]
fn only_what_is_there_is_a_quick_action() {
    assert!(quick_actions(&NameSet::new(), "/v", false).is_empty());
    let rows = quick_actions(&names(&["steam", "raven-settings", "kitty"]), "/v", true);
    let labels: Vec<&str> = rows.iter().map(|r| r.label).collect();
    assert_eq!(labels, ["Launch Steam", "Open recordings", "Raven Settings", "Open a terminal"]);
    assert_eq!(rows[1].action, RailAction::Open("/v".into()));
    assert_eq!(open_terminal(&names(&["kitty", "xterm"])), Ok("kitty"));
    assert_eq!(open_terminal(&NameSet::new()), Err("No terminal emulator is installed".into()));
    assert_eq!(run_detached("steam", Some("/usr/bin/steam")).unwrap(), ["/usr/bin/steam"]);
    assert_eq!(run_detached("steam", None), Err("steam is not installed".into()));
    assert_eq!(run_failure("steam", "no"), "Could not start steam: no");
}

#[test]
fn a_cache_is_cleared_only_inside_the_cache() {
    let cache = Some("/home/me/.cache");
    let inside = Some("/home/me/.cache/mesa");
    let question = confirm_clear_cache("/c/mesa", inside, cache).unwrap();
    assert!(question.body.starts_with("/c/mesa is deleted."));
    assert!(confirm_clear_cache("/etc", Some("/etc"), cache).is_err());
    assert_eq!(clear_answered("cancel", inside, cache), Answered::Declined);
    assert_eq!(clear_answered("clear", inside, cache), Answered::Delete);
    assert!(matches!(clear_answered("clear", Some("/etc"), cache), Answered::Refused(_)));
    assert_eq!(clear_outcome(None), "Shader cache cleared");
    assert_eq!(clear_outcome(Some("busy")), "Could not clear it: busy");
}

#[test]
fn a_recording_is_deleted_only_in_its_folder() {
    assert_eq!(confirm_delete_recording("run").heading, "Delete run?");
    assert_eq!(delete_answered("cancel", "/v/a.rvr", "/v"), Answered::Declined);
    assert_eq!(delete_answered("delete", "/v/a.rvr", "/v"), Answered::Delete);
    for path in ["/v/a.mp4", "/w/a.rvr", "/v/x/a.rvr", "/"] {
        assert!(matches!(delete_answered("delete", path, "/v"), Answered::Refused(_)), "{path}");
        assert!(!is_deletable_recording(path, "/v"));
    }
    assert_eq!(delete_outcome(None), "Recording deleted");
    assert_eq!(delete_outcome(Some("gone")), "Could not delete it: gone");
    assert_eq!(confirm_revert().answer, "revert");
}

#[test]
fn the_graphics_page_has_a_card_for_every_card() {
    assert!(graphics_page(&system(Vec::new(), false), &Vec::new()).is_none());
    let page = graphics_page(&system(laptop(), true), &Vec::new()).unwrap();
    assert_eq!(page.cards.len(), 2);
    assert!(page.two_cards.is_some());
    assert!(hybrid_row(&vec![card("b", Vendor::Amd, false, None)]).is_none());
    let mut broken = card("b", Vendor::Amd, false, None);
    broken.render_node = None;
    let shown = gpu_card(&system(vec![broken.clone()], true), &broken);
    assert_eq!(shown.rows.last().unwrap().state, State::Problem);
}

#[test]
fn a_missing_module_is_offered_a_build() {
    let mut machine = system(laptop(), true);
    machine.dkms = vec![DkmsModule {
        name: "nvidia".into(),
        version: "1".into(),
        kernel: "7.2".into(),
        state: "installed".into(),
    }];
    let found = dkms_section(&machine).into_iter().any(|item| match item {
        Item::Row(row) => match row.trailing {
            Trailing::Button(button) => {
                button.press == Press::Fixes(vec![Fix::BuildModules(vec!["6.1".into()])])
            }
            _ => false,
        },
        _ => false,
    });
    assert!(found);
}

#[test]
fn vulkan_drivers_and_extras_are_listed() {
    let machine = system(laptop(), true);
    assert!(!vulkan_section(&machine.observed.icds, &machine.gpus).is_empty());
    let extra = Requirement::new("gamescope", "a compositor", false);
    let row = installable(&extra, State::Advisory, true);
    assert!(matches!(row.trailing, Trailing::Button(_)));
    assert!(!extras_section(&vec![extra.clone()], &NameSet::new()).is_empty());
    assert!(!vulkan_toast(&VulkanTest::Started).is_empty());
    assert!(vulkan_toast(&VulkanTest::Failed("no".into())).contains("no"));
    assert_ne!(vulkan_toast(&VulkanTest::Missing), vulkan_toast(&VulkanTest::Started));
}

#[test]
fn the_performance_page_shows_what_can_be_set() {
    let path = mode_file_of("card1");
    let files = names(&[&path]);
    let mut texts = TextMap::new();
    texts.insert(path, "auto\n".into());
    let gpus = laptop();
    let page = performance_page(
        Some(Preset::Balanced),
        &gpus,
        &files,
        &texts,
        &settings(false),
        &vec![("/c/mesa".into(), 2048)],
    );
    assert_eq!(page.presets.iter().filter(|p| p.1).count(), 1);
    assert_eq!(page.clocks.len(), 1);
    assert_eq!(page.caches.len(), 1);
    assert!(!page.settings.is_empty());
    assert_eq!(preset_cards(None).iter().filter(|p| p.1).count(), 0);
    assert_eq!(tunable_cards(&gpus, &files), ["card1"]);
    assert_eq!(clock_policy(&gpus[1], &files, &texts), Some(GpuMode::Auto));
    assert_eq!(clock_rows(&gpus, &files, &texts)[0], gpu_mode_row(&gpus[1], &files, &texts));
    assert_eq!(
        preset_actions(Preset::Performance, &vec!["card1".into()]),
        [Action::GpuMode { card: "card1".into(), mode: GpuMode::High }]
    );
    assert!(preset_toast(Preset::Quiet).ends_with(" mode"));
    assert!(!tweak_section(&settings(true)).is_empty());
}

#[test]
fn a_cache_offers_to_be_cleared() {
    let rows = shader_cache_section(&vec![("/c/mesa".into(), 2048)]);
    assert!(rows[0].detail.contains("2.0 KB") || rows[0].title.contains("2.0 KB"));
    match &rows[0].trailing {
        Trailing::Button(button) => assert_eq!(button.press, Press::ClearCache("/c/mesa".into())),
        other => panic!("{other:?}"),
    }
}

#[test]
fn a_clock_policy_is_changed_only_where_it_differs() {
    let card = Some("card1".to_string());
    assert_eq!(choose_clocks(false, None, GpuMode::High, &card), ClockStep::Ignore);
    assert_eq!(choose_clocks(true, Some(GpuMode::High), GpuMode::High, &card), ClockStep::Ignore);
    assert!(matches!(choose_clocks(true, None, GpuMode::High, &card), ClockStep::Run { .. }));
    assert_eq!(choose_clocks(true, None, GpuMode::High, &None), ClockStep::NoPolicy);
}

#[test]
fn a_game_shows_how_it_is_started() {
    let recipe = LaunchRecipe {
        environment: vec![("DRI_PRIME".into(), "1".into())],
        wrappers: Vec::new(),
        notes: Vec::new(),
    };
    let mut configured = TextMap::new();
    let row = game_row(&game("Skyrim"), &configured, &recipe, 0);
    assert!(matches!(row.options, Options::Unset(_)));
    configured.insert("489830".into(), "mangohud %command%".into());
    let row = game_row(&game("Skyrim"), &configured, &recipe, 0);
    assert_eq!(row.options, Options::Chosen("Launch options: mangohud %command%".into()));
    assert!(!recipe_section(&recipe).is_empty());
    let page = games_page(&laptop(), &NameSet::new(), &vec![game("Skyrim")], &configured, true, 0);
    assert_eq!(page.games.len(), 1);
    assert!(page.empty.is_none());
    let page = games_page(&laptop(), &NameSet::new(), &Vec::new(), &configured, false, 0);
    assert!(page.empty.is_some());
}

#[test]
fn a_shelf_holds_a_dozen() {
    let recipe = LaunchRecipe::default();
    let library: Vec<Game> = (0..20).map(|i| game(&format!("Game {i}"))).collect();
    let tiles = shelf(&library, &recipe, &around());
    assert_eq!(tiles.len(), SHELF_SIZE);
    assert!(tiles[0].playable);
    let tile = game_tile(&game("élan"), &recipe, &around());
    // The letter is the capital that Unicode gives.
    assert_eq!(tile.letter, "É");
    assert_eq!(tile.cover, None);
    assert_eq!(cover_letter("skyrim"), "S");
    assert!(!tile_menu(&game("x"), &recipe, &around().directories).is_empty());
    assert_ne!(empty_shelf(true), empty_shelf(false));
}

#[test]
fn a_cover_letter_is_the_first_that_is_one() {
    assert_eq!(cover_letter("...hack"), "H");
    assert_eq!(cover_letter("7 Days"), "7");
}

#[test]
fn a_recording_is_shown_with_what_can_be_done() {
    let row = recording_row(&recording("/v/run.rvr"), true);
    assert_eq!(
        row.export.press,
        Press::Export { source: "/v/run.rvr".into(), destination: "/v/run.mp4".into() }
    );
    assert!(row.export.sensitive);
    assert!(!recording_row(&recording("/v/run.rvr"), false).export.sensitive);
    assert_eq!(row.delete, Press::Delete { path: "/v/run.rvr".into(), name: row.name.clone() });
    assert_ne!(live_line(true), live_line(false));
    let page = capture_page(&vec![recording("/v/run.rvr")], "/v", true, true);
    assert_eq!(page.recordings.len(), 1);
    assert!(page.empty.is_none() && page.can_open);
    assert!(capture_page(&Vec::new(), "/v", false, true).empty.is_some());
}
