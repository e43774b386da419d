use raven_gaming::capture::Recording;
use raven_gaming::checks::{Fix, State};
use raven_gaming::collections::NameSet;
use raven_gaming::drivers::Process;
use raven_gaming::share::{
    cameras, capture_applications, checks, compositor_is_huginn, declares_interface,
    has_microphone, pipewire_running, portal_backend_for, portal_dirs, recording_in_progress,
    restart_failure, restart_outcome, restart_portal, Desktop, PortalFile, RECORD_SHORTCUT,
};
use raven_gaming::sharing::sharing_page;

fn bare() -> Desktop {
    Desktop {
        portal_in_libexec: false,
        portal_in_lib: false,
        commands: NameSet::new(),
        portals: Vec::new(),
        processes: Vec::new(),
        video_devices: Vec::new(),
        sound_cards: None,
    }
}

const CAST: &str = "org.freedesktop.impl.portal.ScreenCast";

fn full() -> Desktop {
    Desktop {
        portal_in_libexec: true,
        portal_in_lib: false,
        commands: NameSet::of(&vec!["obs".to_string()]),
        portals: vec![PortalFile {
            path: "/usr/share/xdg-desktop-portal/portals/raven.portal".into(),
            text: Some(format!("[portal]\nInterfaces={CAST};\n")),
        }],
        processes: vec![Process { directory: "7".into(), comm: Some("pipewire\n".into()) }],
        video_devices: vec![Some("Integrated Camera\n".into())],
        sound_cards: Some(" 0 [PCH            ]: HDA-Intel - HDA Intel PCH\n".into()),
    }
}

#[test]
fn a_portal_file_declares_whole_interfaces() {
    let file = "[portal]\nDBusName=org.freedesktop.impl.portal.desktop.raven\nInterfaces=org.freedesktop.impl.portal.FileChooser;\nUseIn=Raven;Huginn\n";
    assert!(declares_interface(file, "org.freedesktop.impl.portal.FileChooser"));
    assert!(!declares_interface(file, "org.freedesktop.impl.portal.ScreenCast"));
}

#[test]
fn several_interfaces_on_one_line_are_all_found() {
    let file = "Interfaces=org.freedesktop.impl.portal.ScreenCast;org.freedesktop.impl.portal.Screenshot;\n";
    assert!(declares_interface(file, "org.freedesktop.impl.portal.ScreenCast"));
    assert!(declares_interface(file, "org.freedesktop.impl.portal.Screenshot"));
}

#[test]
fn a_prefix_is_not_a_match() {
    let file = "Interfaces=org.freedesktop.impl.portal.ScreenCastExtra;\n";
    assert!(!declares_interface(file, "org.freedesktop.impl.portal.ScreenCast"));
}

#[test]
fn a_file_with_no_interfaces_declares_none() {
    assert!(!declares_interface("[portal]\nDBusName=x\n", "anything"));
    assert!(!declares_interface("", "anything"));
}

#[test]
fn the_sharing_list_always_covers_every_piece() {
    for desktop in [bare(), full()] {
        let titles: Vec<String> = checks(&desktop).into_iter().map(|c| c.title).collect();
        for expected in [
            "Desktop portal",
            "Screen-sharing backend",
            "PipeWire",
            "Camera",
            "Microphone",
            "Capture software",
        ] {
            assert!(titles.iter().any(|t| t == expected), "missing {expected}");
        }
    }
}

#[test]
fn the_sharing_page_never_offers_a_fix_it_cannot_deliver() {
    // The backend check's only "fix" is advice, because no package makes screen sharing work
    // against a compositor with no capture protocol. Offering an install there would be a lie.
    for desktop in [bare(), full()] {
        let backend = checks(&desktop)
            .into_iter()
            .find(|c| c.title == "Screen-sharing backend")
            .unwrap();
        if backend.state == State::Problem {
            assert!(matches!(backend.fix, Some(Fix::Manual(_)) | None));
        }
    }
}

#[test]
fn a_backend_is_found_in_the_portal_files() {
    let desktop = full();
    assert!(portal_backend_for(CAST, &desktop.portals).is_some());
    assert!(portal_backend_for("org.freedesktop.impl.portal.Print", &desktop.portals).is_none());
    assert!(portal_dirs().iter().all(|d| d.starts_with('/')));
    let backend =
        checks(&desktop).into_iter().find(|c| c.title == "Screen-sharing backend").unwrap();
    assert_ne!(backend.state, State::Problem);
}

#[test]
fn what_is_plugged_in_is_listed_once() {
    let found = cameras(&vec![Some("B Cam\n".into()), None, Some("A Cam\n".into()), Some("B Cam\n".into())]);
    assert_eq!(found, ["A Cam", "B Cam"]);
    assert!(pipewire_running(&full().processes));
    assert!(!pipewire_running(&bare().processes));
    assert!(has_microphone(full().sound_cards.as_deref()));
    assert!(!has_microphone(None));
    assert!(!capture_applications(&full().commands).is_empty());
    assert!(capture_applications(&NameSet::new()).is_empty());
}

#[test]
fn the_compositor_is_told_by_its_socket_name_or_process() {
    assert!(compositor_is_huginn(true, None, &Vec::new()));
    assert!(compositor_is_huginn(false, Some("Huginn"), &Vec::new()));
    assert!(!compositor_is_huginn(false, Some("GNOME"), &Vec::new()));
    assert!(compositor_is_huginn(
        false,
        None,
        &vec![Process { directory: "9".into(), comm: Some("huginn\n".into()) }]
    ));
    assert!(!RECORD_SHORTCUT.is_empty());
}

fn recording(modified: i128, complete: bool) -> Recording {
    Recording {
        path: "/v/a.rvr".into(),
        bytes: 10,
        modified: Some(modified),
        width: 1,
        height: 1,
        duration: None,
        complete,
        exported: None,
    }
}

#[test]
fn a_recording_just_written_is_in_progress() {
    let second = 1_000_000_000i128;
    let now = 1_000 * second;
    assert!(recording_in_progress(&vec![recording(now - second, false)], now));
    assert!(!recording_in_progress(&vec![recording(now - 600 * second, false)], now));
    assert!(!recording_in_progress(&vec![recording(now - second, true)], now));
    assert!(!recording_in_progress(&Vec::new(), now));
}

#[test]
fn the_portal_is_restarted_by_systemctl() {
    let command = restart_portal(Some("/usr/bin/systemctl")).unwrap();
    assert_eq!(command[0], "/usr/bin/systemctl");
    assert!(command.contains(&"--user".to_string()));
    assert!(restart_portal(None).is_err());
    assert!(restart_outcome(true, "").is_ok());
    assert!(restart_outcome(false, "unit not found").is_err());
    assert!(restart_failure("no").ends_with("no"));
}

#[test]
fn the_sharing_page_is_told_to_the_right_compositor() {
    let page = sharing_page(&bare(), true, Some("Huginn"));
    assert!(page.banner);
    assert_eq!(page.rows.len(), checks(&bare()).len());
    assert!(!sharing_page(&bare(), false, Some("GNOME")).banner);
    assert!(!sharing_page(&full(), true, Some("Huginn")).banner);
}
