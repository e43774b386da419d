use raven_gaming::collections::{NameSet, TextMap};
use raven_gaming::tools::{
    by_kind, catalogue, directory_size, is_deletable_prefix, prefix_dir, prefixes, probe_outcome,
    probes, proton_builds, proton_dirs, protontricks, protontricks_failure, Prefix, PrefixEntry,
    SteamEntry, KINDS,
};
use raven_gaming::tune::Tree;

fn names(list: &[&str]) -> NameSet {
    let owned: Vec<String> = list.iter().map(|s| s.to_string()).collect();
    NameSet::of(&owned)
}

#[test]
fn every_tool_is_shelved_exactly_once() {
    let shelved: usize = KINDS.iter().map(|k| by_kind(*k).len()).sum();
    assert_eq!(shelved, catalogue().len());
    for kind in KINDS {
        assert!(!by_kind(kind).is_empty(), "{} is empty", kind.title());
    }
}

#[test]
fn no_package_is_listed_twice() {
    let all = catalogue();
    let mut packages: Vec<&str> = all.iter().map(|t| t.package).collect();
    let before = packages.len();
    packages.sort_unstable();
    packages.dedup();
    assert_eq!(packages.len(), before);
}

#[test]
fn every_package_name_would_survive_rvn() {
    for tool in catalogue() {
        assert!(
            tool.package
                .chars()
                .all(|c| c.is_ascii_alphanumeric() || matches!(c, '-' | '_' | '.' | '+')),
            "{} would be refused",
            tool.package
        );
        assert!(!tool.what.is_empty(), "{} says nothing", tool.name);
    }
}

#[test]
fn a_library_with_no_program_is_found_by_its_package() {
    // lib32-mangohud installs no binary, so the commands can never show it and the package
    // database is the only witness.
    let all = catalogue();
    let library = all.iter().find(|t| t.package == "lib32-mangohud").unwrap();
    assert!(library.binary.is_empty());
    assert!(library.is_installed(&NameSet::new(), &|p: &str| p == "lib32-mangohud"));
    assert!(!library.is_installed(&NameSet::new(), &|_: &str| false));
}

#[test]
fn a_program_counts_as_installed_either_way() {
    let all = catalogue();
    let steam = all.iter().find(|t| t.name == "Steam").unwrap();
    // Present in the database but not on PATH still counts: a package that installs somewhere
    // unusual is installed.
    assert!(steam.is_installed(&NameSet::new(), &|p: &str| p == "steam"));
    assert!(steam.is_installed(&names(&["steam"]), &|_: &str| false));
}

#[test]
fn only_read_only_probes_are_offered() {
    // Every probe must be something that prints and exits. A tool that changes anything has no
    // business on a diagnostics button.
    for probe in probes() {
        assert!(!probe.binary.is_empty());
        for arg in probe.args {
            assert!(arg.starts_with('-'), "{} takes a non-flag argument: {arg}", probe.name);
        }
    }
}

#[test]
fn a_prefix_shows_the_game_it_belongs_to() {
    let mut names = TextMap::new();
    names.insert("489830".to_string(), "Skyrim Special Edition".to_string());
    let known = Prefix {
        app_id: "489830".into(),
        game: names.get("489830").cloned(),
        path: "/x".into(),
        bytes: 0,
    };
    assert_eq!(known.title(), "Skyrim Special Edition");
    // An id with no name is a prefix left behind by a game that has been uninstalled, which is
    // worth finding rather than hiding.
    let orphan = Prefix { app_id: "12345".into(), game: None, path: "/x".into(), bytes: 0 };
    assert_eq!(orphan.title(), "App 12345");
}

const LIBRARY: &str = "/home/me/.local/share/Steam/steamapps/compatdata";

#[test]
fn nothing_outside_a_steam_library_can_be_deleted() {
    let libraries = vec![LIBRARY.to_string()];
    for path in ["/", "/home", "/tmp", "/etc", "/definitely/not/here/4a9f", "/home/me"] {
        assert!(
            !is_deletable_prefix(Some(path), &libraries, true, true),
            "would have deleted {path}"
        );
    }
    // What cannot be resolved is not deleted on a guess.
    assert!(!is_deletable_prefix(None, &libraries, true, true));
    assert!(!is_deletable_prefix(Some(LIBRARY), &libraries, true, true));
}

#[test]
fn a_real_prefix_on_this_machine_passes_every_guard() {
    let libraries = vec![LIBRARY.to_string()];
    let entries = vec![
        PrefixEntry {
            name: "489830".into(),
            path: format!("{LIBRARY}/489830"),
            is_dir: true,
            bytes: 10,
        },
        PrefixEntry {
            name: "12345".into(),
            path: format!("{LIBRARY}/12345"),
            is_dir: true,
            bytes: 20,
        },
    ];
    let found = prefixes(&TextMap::new(), &entries);
    assert_eq!(found.len(), 2);
    for prefix in found {
        assert!(
            is_deletable_prefix(Some(&prefix.path), &libraries, true, false),
            "{} is a prefix but the guard refuses it",
            prefix.path
        );
    }
}

#[test]
fn protontricks_refuses_anything_that_is_not_an_app_id() {
    for bad in ["", "abc", "../../etc", "489830; rm -rf /"] {
        assert!(protontricks(Some("/usr/bin/protontricks"), bad).is_err(), "accepted {bad:?}");
    }
}

#[test]
fn protontricks_is_asked_about_one_app() {
    let command = protontricks(Some("/usr/bin/protontricks"), "489830").unwrap();
    assert_eq!(command, ["/usr/bin/protontricks", "--gui", "489830"]);
    assert_eq!(protontricks(None, "489830").unwrap_err(), "protontricks is not installed");
    assert_eq!(protontricks(None, "x").unwrap_err(), "Not a Steam app id: x");
    assert_eq!(protontricks_failure("no"), "Could not start protontricks: no");
}

#[test]
fn the_largest_prefix_comes_first() {
    let entry = |name: &str, is_dir: bool, bytes: u64| PrefixEntry {
        name: name.into(),
        path: format!("{LIBRARY}/{name}"),
        is_dir,
        bytes,
    };
    let mut games = TextMap::new();
    games.insert("2".into(), "Two".into());
    let found = prefixes(&games, &vec![entry("1", true, 5), entry("2", true, 9), entry("3", false, 99)]);
    let ids: Vec<&str> = found.iter().map(|p| p.app_id.as_str()).collect();
    assert_eq!(ids, ["2", "1"]);
    assert_eq!(found[0].title(), "Two");
    assert_eq!(found[1].title(), "App 1");
    let twice = prefixes(&games, &vec![entry("1", true, 5), entry("1", true, 9)]);
    assert_eq!(twice.len(), 1);
    assert_eq!(twice[0].bytes, 5);
    assert_eq!(prefix_dir("/s"), "/s/steamapps/compatdata");
}

#[test]
fn custom_builds_of_proton_come_first() {
    let entry = |name: &str, official: bool| SteamEntry {
        name: name.into(),
        path: format!("/s/{name}"),
        is_dir: true,
        official,
    };
    let found = proton_builds(&vec![
        entry("Proton 9.0", true),
        entry("GE-Proton9-1", false),
        entry("Half-Life", true),
        entry("Proton 8.0", true),
        entry("GE-Proton9-1", false),
    ]);
    let listed: Vec<&str> = found.iter().map(|b| b.name.as_str()).collect();
    assert_eq!(listed, ["GE-Proton9-1", "Proton 8.0", "Proton 9.0"]);
    assert!(!found[0].official);
    assert!(found[1].official);
    let (official, custom) = proton_dirs("/s");
    assert_eq!(official, "/s/steamapps/common");
    assert_eq!(custom, "/s/compatibilitytools.d");
}

#[test]
fn a_probe_is_run_and_read() {
    let probe = probes().remove(0);
    assert!(probe.is_available(&names(&[probe.binary])));
    assert!(!probe.is_available(&NameSet::new()));
    let command = probe.run(Some("/usr/bin/x")).unwrap();
    assert_eq!(command, ["/usr/bin/x", "--summary"]);
    assert_eq!(probe.run(None).unwrap_err(), "vulkaninfo is not installed");
    assert_eq!(probe.run_failure("no"), "Could not run vulkaninfo: no");
    assert_eq!(probe_outcome("out\n", ""), Ok("out\n".to_string()));
    assert_eq!(probe_outcome(" \n", "a\nlast\n"), Err("last".into()));
    assert_eq!(probe_outcome("", ""), Err("It printed nothing".into()));
}

#[test]
fn a_directory_is_measured_to_a_depth() {
    let tree = vec![
        Tree::File(10),
        Tree::Other,
        Tree::Folder(vec![Tree::File(5), Tree::Folder(vec![Tree::File(1)])]),
    ];
    assert_eq!(directory_size(&tree, 0), 16);
    // A folder at the last level is counted, what is below it is not.
    assert_eq!(directory_size(&tree, 5), 15);
    assert_eq!(directory_size(&tree, 6), 10);
    assert_eq!(directory_size(&tree, 7), 0);
}

#[test]
fn each_tool_stands_on_one_shelf_once() {
    for tool in catalogue() {
        for kind in KINDS {
            let times = by_kind(kind).iter().filter(|t| t.name == tool.name).count();
            assert_eq!(times, if kind == tool.kind { 1 } else { 0 }, "{}", tool.name);
        }
    }
}

#[test]
fn a_probe_is_copied_whole() {
    let probe = probes()[0];
    let same = probe;
    assert_eq!((same.name, same.binary), ("Vulkan summary", "vulkaninfo"));
    assert_eq!((same.args, same.what), (probe.args, probe.what));
    assert_eq!(same.args, ["--summary"]);
}
