use raven_gaming::install::{
    cache_dir, daemon_socket, install, is_in_user_cache, open_in_terminal, read_event, read_log,
    start_failure, strip_ansi, terminal_failure, terminals, text, translate, unavailable,
    validate_package_name, Connection, Event,
};
use raven_gaming::json::{read_json, Json};

fn json(text: &str) -> Json {
    read_json(text).unwrap()
}

#[test]
fn rvn_events_become_dialog_events() {
    let stage = json(r#"{"event": "stage", "name": "Resolving dependencies"}"#);
    assert!(matches!(translate(&stage), Some(Event::Stage(s)) if s == "Resolving dependencies"));

    let progress = json(
        r#"{"event": "progress", "label": "lib32-nvidia-utils", "done": 50, "total": 100}"#,
    );
    match translate(&progress) {
        Some(Event::Progress { label, done, total }) => {
            assert_eq!(label, "lib32-nvidia-utils");
            assert_eq!((done, total), (50, 100));
        }
        other => panic!("expected progress, got {other:?}"),
    }

    let failed = json(r#"{"event": "failed", "message": "target not found"}"#);
    assert!(matches!(translate(&failed), Some(Event::Failed(m)) if m == "target not found"));
}

#[test]
fn terminal_only_noise_is_dropped() {
    let detail = json(r#"{"event": "message", "kind": "detail", "text": "  -> x"}"#);
    assert!(translate(&detail).is_none());
    let unknown = json(r#"{"event": "something-new"}"#);
    assert!(translate(&unknown).is_none());
    assert!(translate(&json("{}")).is_none());
}

#[test]
fn colour_codes_do_not_reach_the_dialog() {
    assert_eq!(strip_ansi("\u{1b}[1;32minstalled\u{1b}[0m"), "installed");
    assert_eq!(strip_ansi("plain"), "plain");
    // An unterminated escape swallows the rest rather than printing it.
    assert_eq!(strip_ansi("a\u{1b}["), "a");
    assert_eq!(strip_ansi("a\u{1b}[0;1;38;5;208mb\u{1b}[0m"), "ab");
    // A lone ESC at the end of a line leaves the text before it alone.
    assert_eq!(strip_ansi("done\u{1b}"), "done");
}

#[test]
fn only_real_package_names_are_passed_on() {
    for name in ["lib32-nvidia-utils", "mesa", "gcc-libs+", "a.b_c@1"] {
        assert!(validate_package_name(name).is_ok(), "rejected {name}");
    }
    for name in ["", "-rf", "../etc", "a b", "x;rm -rf /", &"x".repeat(200)] {
        assert!(validate_package_name(name).is_err(), "accepted {name:?}");
    }
}

#[test]
fn installing_nothing_is_refused_before_rvn_is_started() {
    assert!(install(Some("/usr/bin/rvn"), &Vec::new()).is_err());
}

#[test]
fn only_paths_inside_the_cache_may_be_cleared() {
    // The cache itself is not deletable, only things under it.
    let cache = Some("/home/me/.cache");
    assert!(!is_in_user_cache(Some("/home/me"), cache));
    assert!(!is_in_user_cache(Some("/"), cache));
    assert!(!is_in_user_cache(Some("/etc"), cache));
    assert!(!is_in_user_cache(cache, cache));
    assert!(is_in_user_cache(Some("/home/me/.cache/mesa_shader_cache"), cache));
    assert!(!is_in_user_cache(Some("/home/me/.cachet/x"), cache));
    // A path that does not exist cannot be resolved, so it is not in the cache either — nothing is
    // deleted on a guess.
    assert!(!is_in_user_cache(None, cache));
    assert!(!is_in_user_cache(Some("/home/me/.cache/x"), None));
}

#[test]
fn packages_are_installed_by_rvn() {
    let command = install(Some("/usr/bin/rvn"), &vec!["mesa".into(), "steam".into()]).unwrap();
    assert_eq!(command[0], "/usr/bin/rvn");
    assert_eq!(command[command.len() - 2..], ["mesa", "steam"]);
    assert!(install(None, &vec!["mesa".into()]).is_err());
    assert!(install(Some("/usr/bin/rvn"), &vec!["mesa".into(), "-rf".into()]).is_err());
    assert!(start_failure("no").ends_with("no"));
}

#[test]
fn why_nothing_can_be_installed() {
    assert_eq!(unavailable(true, Connection::Made), None);
    let no_rvn = unavailable(false, Connection::Made).unwrap();
    let no_daemon = unavailable(true, Connection::Absent).unwrap();
    assert_ne!(no_rvn, no_daemon);
    // Any other failure is left for rvn to report.
    assert_eq!(unavailable(true, Connection::Failed), None);
    assert_eq!(daemon_socket(Some("/x/sock")), "/x/sock");
    assert!(daemon_socket(None).starts_with("/run/"));
}

#[test]
fn lines_of_output_are_read() {
    assert!(matches!(
        read_event(r#"{"event":"stage","name":"x"}"#),
        Some(Event::Stage(s)) if s == "x"
    ));
    assert!(read_event("not json").is_none());
    assert!(matches!(read_log("\u{1b}[1mhello\u{1b}[0m"), Some(Event::Message(s)) if s == "hello"));
    assert!(read_log("   ").is_none());
}

#[test]
fn a_text_loses_its_colours() {
    let value = json("{\"a\": \"\\u001b[1mbold\\u001b[0m\", \"b\": 7}");
    assert_eq!(text(&value, "a").as_deref(), Some("bold"));
    assert_eq!(text(&value, "b"), None);
    assert_eq!(text(&value, "c"), None);
}

#[test]
fn a_terminal_installs_where_one_is_found() {
    assert_eq!(terminals()[0], "raven-terminal");
    let found = vec![None, Some("/usr/bin/foot".to_string()), Some("/usr/bin/kitty".into())];
    let command = open_in_terminal(&found, &vec!["mesa".into()]).unwrap();
    assert_eq!(command[0], "/usr/bin/foot");
    assert!(command[4].starts_with("sudo rvn install mesa;"));
    assert!(open_in_terminal(&vec![None, None], &vec!["mesa".into()]).is_err());
    assert_eq!(
        open_in_terminal(&found, &vec!["mesa".into(), "x;rm -rf /".into()]).unwrap_err(),
        "Not a package name: x;rm -rf /"
    );
    assert!(terminal_failure("no").ends_with("no"));
}

#[test]
fn the_cache_is_where_the_desktop_says() {
    assert_eq!(cache_dir(Some("/home/me"), None).as_deref(), Some("/home/me/.cache"));
    assert_eq!(cache_dir(Some("/home/me"), Some("/c")).as_deref(), Some("/c"));
    assert_eq!(cache_dir(None, None), None);
}
