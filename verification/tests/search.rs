use raven_gaming::capture::Recording;
use raven_gaming::checks::{Observed, System};
use raven_gaming::collections::NameSet;
use raven_gaming::games::{Game, Source};
use raven_gaming::gpu::{DriverKind, Gpu, Vendor};
use raven_gaming::search::{
    first_line, hit_line, matches_of, nothing_matches, rank, rank_of, search_index, Hit,
    MAX_HITS,
};
use raven_gaming::tune::Settings;
use raven_gaming::window::page_index;

fn hit(title: &str, detail: &str) -> Hit {
    Hit { page: "overview", place: "Section", title: title.into(), detail: detail.into(), icon: "x" }
}

fn system() -> System {
    System::read(
        vec![Gpu {
            address: "0000:01:00.0".into(),
            vendor: Vendor::Nvidia,
            vendor_id: 0x10de,
            device_id: 0x2191,
            model: "GeForce GTX 1660 Ti".into(),
            driver: DriverKind::NvidiaProprietary,
            module: None,
            card: None,
            render_node: None,
            boot_vga: true,
            drives_internal_panel: false,
            integrated: false,
        }],
        NameSet::new(),
        Vec::new(),
        Vec::new(),
        Observed {
            dkms_available: false,
            icds: Vec::new(),
            vulkaninfo: true,
            has_32bit_stack: false,
            settings: Settings {
                max_map_count: None,
                split_lock_mitigate: None,
                swappiness: None,
                limits: None,
                sysctl_file: false,
                limits_file: false,
            },
            steam_installed: false,
            games: 0,
        },
    )
}

#[test]
fn a_title_answers_better_than_a_detail() {
    assert_eq!(rank(&hit("NVIDIA card", "x"), "nvidia"), Some(0));
    assert_eq!(rank(&hit("The NVIDIA card", "x"), "nvidia"), Some(1));
    assert_eq!(rank(&hit("Driver", "for NVIDIA"), "nvidia"), Some(2));
    assert_eq!(rank(&hit("Driver", "for AMD"), "nvidia"), None);
    assert_eq!(rank_of("abc", "", "b"), Some(1));
}

#[test]
fn letters_of_every_alphabet_are_lowered() {
    assert_eq!(rank(&hit("ÉLAN", ""), "élan"), Some(0));
    assert_eq!(raven_gaming::search::matches(&vec![hit("élan", "")], "  ÉLAN "), [0]);
}

#[test]
fn the_best_eight_are_shown() {
    let mut index: Vec<Hit> = (0..20).map(|i| hit("other", &format!("nvidia {i}"))).collect();
    index.push(hit("nvidia", ""));
    index.push(hit("an nvidia", ""));
    let found = raven_gaming::search::matches(&index, "nvidia");
    assert_eq!(found.len(), MAX_HITS);
    assert_eq!(found[..3], [20, 21, 0]);
    assert_eq!(matches_of(&index, ""), Vec::<usize>::new());
    assert!(raven_gaming::search::matches(&index, "   ").is_empty());
    assert!(raven_gaming::search::matches(&index, "radeon").is_empty());
    assert_eq!(nothing_matches(" radeon "), "Nothing matches “radeon”");
}

#[test]
fn everything_worth_finding_is_in_the_index() {
    let games = vec![Game {
        name: "Skyrim".into(),
        source: Source::Steam,
        app_id: None,
        size_on_disk: 0,
        last_played: None,
        install_dir: None,
    }];
    let recordings = vec![Recording {
        path: "/v/run.rvr".into(),
        bytes: 1,
        modified: None,
        width: 1,
        height: 1,
        duration: None,
        complete: true,
        exported: None,
    }];
    let index = search_index(&system(), &games, &recordings, 0);
    for (query, page) in [
        ("skyrim", "games"),
        ("geforce", "graphics"),
        ("run", "capture"),
    ] {
        let found = raven_gaming::search::matches(&index, query);
        assert!(found.iter().any(|i| index[*i].page == page), "{query}");
    }
    assert_eq!(index.iter().filter(|h| h.place == "Section").count(), 6);
    assert_eq!(index.iter().filter(|h| h.place == "Setting").count(), 4);
    assert_eq!(index.last().unwrap().place, "Recording");
    assert_eq!(hit_line(&index[0]), format!("Section · {}", index[0].detail));
}

#[test]
fn a_first_line_ends_at_the_line_feed() {
    assert_eq!(first_line("a\nb"), "a");
    assert_eq!(first_line(""), "");
    assert_eq!(first_line("\nb"), "");
}

#[test]
fn every_hit_is_on_a_page_of_the_window() {
    let game = Game {
        name: "Half-Life".into(),
        source: Source::Steam,
        app_id: Some("70".into()),
        size_on_disk: 0,
        last_played: None,
        install_dir: None,
    };
    let index = search_index(&system(), &vec![game], &Vec::new(), 0);
    assert!(!index.is_empty());
    for hit in &index {
        assert!(page_index(hit.page).is_some(), "{} leads nowhere", hit.title);
    }
}
