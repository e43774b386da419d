use raven_gaming::capture::{
    duration_text, export, export_event, export_finished, export_start_failure,
    exporter_available, home_dir, last_words, named_as_recording, open_failure,
    open_in_file_manager, parse_progress, parse_user_dir, probe, read_header, recordings,
    recordings_dir, user_dirs_file, videos_dir, walk_records, ExportEnd, ExportEvent, ExportReader,
    RecordingFile, Walk, HEADER_LEN, KIND_END, RECORD_HEADER_LEN,
};
use raven_gaming::collections::NameSet;

/// Builds a recording in memory: header, then the records given as `(kind, pts, payload length)`.
fn recording_bytes(width: u32, height: u32, records: &[(u8, u64, u32)]) -> Vec<u8> {
    let mut bytes = Vec::new();
    bytes.extend_from_slice(b"RVNREC");
    bytes.extend_from_slice(&1u16.to_le_bytes());
    bytes.extend_from_slice(&width.to_le_bytes());
    bytes.extend_from_slice(&height.to_le_bytes());
    bytes.extend_from_slice(&0u32.to_le_bytes());
    assert_eq!(bytes.len() as u64, HEADER_LEN);
    for (kind, pts, length) in records {
        bytes.push(*kind);
        bytes.extend_from_slice(&pts.to_le_bytes());
        bytes.extend_from_slice(&length.to_le_bytes());
        bytes.extend_from_slice(&0u32.to_le_bytes()); // crc, unread here
        bytes.extend(std::iter::repeat(0u8).take(*length as usize));
    }
    bytes
}

fn file(path: &str, modified: Option<i128>) -> RecordingFile {
    let bytes = recording_bytes(640, 480, &[(0, 1_000_000, 4), (KIND_END, 2_000_000, 0)]);
    RecordingFile {
        path: path.into(),
        bytes: bytes.len() as u64,
        modified,
        header: bytes[..HEADER_LEN as usize].to_vec(),
        walked: walk_records(&bytes),
        export_exists: false,
    }
}

#[test]
fn a_finished_recording_reports_its_length() {
    let bytes = recording_bytes(
        1920,
        1080,
        &[(0, 0, 8), (1, 1_000_000, 4), (KIND_END, 2_500_000, 0)],
    );
    let r = probe("/tmp/finished.rvr", &bytes, None, false).unwrap();
    assert_eq!((r.width, r.height), (1920, 1080));
    assert_eq!(r.duration, Some(2_500_000));
    assert!(r.complete);
    assert!(r.export_path().ends_with(".mp4"));
}

#[test]
fn a_recording_cut_short_still_reports_what_it_has() {
    let bytes = recording_bytes(800, 600, &[(0, 0, 4), (1, 3_000_000, 4)]);
    let r = probe("/tmp/cutshort.rvr", &bytes, None, false).unwrap();
    assert_eq!(r.duration, Some(3_000_000));
    assert!(!r.complete);
    assert!(r.detail().contains("cut short"));
}

#[test]
fn a_file_that_is_not_a_recording_is_not_one() {
    assert!(probe("/tmp/bogus.rvr", b"not a recording at all, just bytes", None, false).is_none());
}

#[test]
fn a_truncated_header_is_not_a_recording() {
    assert!(probe("/tmp/short.rvr", b"RVNREC", None, false).is_none());
}

#[test]
fn a_recording_with_no_records_has_no_length() {
    let r = probe("/tmp/empty.rvr", &recording_bytes(640, 480, &[]), None, false).unwrap();
    assert_eq!(r.duration, None);
    assert!(!r.complete);
}

#[test]
fn a_record_length_that_runs_past_the_file_ends_the_walk() {
    // A damaged length must not loop or read forever.
    let mut bytes = recording_bytes(640, 480, &[(0, 500_000, 0)]);
    // Rewrite that record's length to something enormous.
    let length_at = HEADER_LEN as usize + 9;
    bytes[length_at..length_at + 4].copy_from_slice(&u32::MAX.to_le_bytes());
    let r = probe("/tmp/damaged.rvr", &bytes, None, false).unwrap();
    assert_eq!(r.duration, Some(500_000));
    assert!(!r.complete);
}

#[test]
fn durations_read_the_way_people_say_them() {
    assert_eq!(duration_text(9), "9s");
    assert_eq!(duration_text(134), "2m 14s");
    assert_eq!(duration_text(3 * 3600 + 5 * 60), "3h 05m");
}

#[test]
fn the_exporters_progress_line_is_recognised() {
    let (frames, seconds) = parse_progress("1234 frames, 41.1 s of video").unwrap();
    assert_eq!((frames, seconds.parse::<f64>().unwrap()), (1234, 41.1));
    assert_eq!(parse_progress("wrote talk.mp4"), None);
    assert_eq!(parse_progress(""), None);
}

#[test]
fn the_videos_folder_comes_from_user_dirs() {
    let home = "/home/someone";
    let text = "# comment\nXDG_VIDEOS_DIR=\"$HOME/Media/Video\"\nXDG_MUSIC_DIR=\"$HOME/Music\"\n";
    assert_eq!(
        parse_user_dir(text, "XDG_VIDEOS_DIR", home).as_deref(),
        Some("/home/someone/Media/Video")
    );
    assert_eq!(
        parse_user_dir("XDG_VIDEOS_DIR=\"/mnt/video\"\n", "XDG_VIDEOS_DIR", home).as_deref(),
        Some("/mnt/video")
    );
    assert_eq!(parse_user_dir("", "XDG_VIDEOS_DIR", home), None);
    // A commented-out line is not a setting.
    assert_eq!(parse_user_dir("#XDG_VIDEOS_DIR=\"/x\"\n", "XDG_VIDEOS_DIR", home), None);
}

#[test]
fn the_folder_of_recordings_is_below_the_videos() {
    let text = "XDG_VIDEOS_DIR=\"$HOME/Media\"\n";
    assert_eq!(videos_dir(Some("/home/me"), None, None), "/home/me/Videos");
    assert_eq!(videos_dir(Some("/home/me"), Some("/v"), Some(text)), "/v");
    assert_eq!(videos_dir(Some("/home/me"), None, Some(text)), "/home/me/Media");
    let folder = recordings_dir(Some("/home/me"), None, Some(text));
    assert!(folder.starts_with("/home/me/Media/"));
    assert_eq!(home_dir(Some("/home/me")), "/home/me");
    assert!(user_dirs_file(Some("/home/me"), None).starts_with("/home/me/.config/"));
    assert!(user_dirs_file(Some("/home/me"), Some("/conf")).starts_with("/conf/"));
}

#[test]
fn a_walk_asks_for_what_a_file_still_holds() {
    let bytes = recording_bytes(1, 1, &[(0, 7, 3), (KIND_END, 9, 0)]);
    let mut walk = Walk::start();
    let mut asked = Vec::new();
    while let Some(at) = walk.wants(bytes.len() as u64) {
        asked.push(at);
        let at = at as usize;
        walk = walk.step(Some(&bytes[at..at + RECORD_HEADER_LEN as usize]));
    }
    assert_eq!(asked, [20, 40]);
    assert_eq!((walk.last, walk.complete), (Some(9), true));
    assert_eq!(walk_records(&bytes), (Some(9), true));
    // A header that could not be read ends the walk.
    let stopped = Walk::start().step(None);
    assert_eq!(stopped.wants(bytes.len() as u64), None);
}

#[test]
fn a_header_gives_up_its_size() {
    let bytes = recording_bytes(800, 600, &[]);
    assert_eq!(read_header(&bytes), Some((800, 600)));
    assert_eq!(read_header(&bytes[..19]), None);
}

#[test]
fn recordings_come_newest_first() {
    let files = vec![
        file("/v/a.rvr", Some(10)),
        file("/v/b.rvr", Some(30)),
        file("/v/c.mp4", Some(40)),
        file("/v/d.rvr", None),
        file("/v/e.rvr", Some(20)),
    ];
    let found = recordings(&files);
    let paths: Vec<&str> = found.iter().map(|r| r.path.as_str()).collect();
    assert_eq!(paths, ["/v/b.rvr", "/v/e.rvr", "/v/a.rvr", "/v/d.rvr"]);
    assert!(named_as_recording("/v/a.rvr"));
    assert!(!named_as_recording("/v/a.mp4"));
}

#[test]
fn a_recording_says_what_it_is() {
    let bytes = recording_bytes(1920, 1080, &[(0, 0, 8), (KIND_END, 134_000_000, 0)]);
    let r = probe("/v/run.rvr", &bytes, Some(5), true).unwrap();
    assert_eq!(r.name(), "run");
    assert!(r.detail().contains("2m 14s"));
    assert!(r.detail().contains("1920"));
    assert_eq!(r.export_path(), "/v/run.mp4");
    assert_eq!(r.exported.as_deref(), Some("/v/run.mp4"));
}

#[test]
fn an_export_is_a_command() {
    assert_eq!(
        export(Some("/usr/bin/raven-export"), "/v/a.rvr", "/v/a.mp4").unwrap()[0],
        "/usr/bin/raven-export"
    );
    assert!(export(None, "/v/a.rvr", "/v/a.mp4").is_err());
    assert!(export_start_failure("no").ends_with("no"));
    assert!(exporter_available(&NameSet::of(&vec!["raven-export".to_string()])));
    assert!(!exporter_available(&NameSet::new()));
}

#[test]
fn the_end_of_an_export_is_said() {
    assert!(matches!(export_finished(&ExportEnd::Succeeded), ExportEvent::Finished { ok: true, .. }));
    match export_finished(&ExportEnd::Exited("exit status: 1".into())) {
        ExportEvent::Finished { ok, message } => {
            assert!(!ok);
            assert!(message.contains("exit status: 1"));
        }
        other => panic!("{other:?}"),
    }
    match export_finished(&ExportEnd::Lost("gone".into())) {
        ExportEvent::Finished { ok, message } => {
            assert!(!ok);
            assert!(message.contains("gone"));
        }
        other => panic!("{other:?}"),
    }
}

#[test]
fn an_exporters_output_is_read_in_any_pieces() {
    let output: &[u8] = b"opening\r10 frames, 0.4 s of video\r20 frames, 0.8 s of video\nwrote \xff.mp4\n";
    let mut whole = ExportReader::new();
    let mut at_once = whole.take(output);
    at_once.extend(whole.finish());
    let mut reader = ExportReader::new();
    let mut piecewise = Vec::new();
    for byte in output {
        piecewise.extend(reader.take(&[*byte]));
    }
    piecewise.extend(reader.finish());
    assert_eq!(at_once, piecewise);
    assert_eq!(
        at_once,
        [
            ExportEvent::Log("opening".into()),
            ExportEvent::Progress { frames: 10, seconds: "0.4".into() },
            ExportEvent::Progress { frames: 20, seconds: "0.8".into() },
            // A byte that is no text is shown as the replacement character.
            ExportEvent::Log("wrote \u{fffd}.mp4".into()),
        ]
    );
}

#[test]
fn blank_output_says_nothing() {
    assert_eq!(export_event(""), None);
    assert_eq!(export_event("   "), None);
    assert_eq!(last_words("  "), None);
    assert_eq!(last_words("bye"), Some(ExportEvent::Log("bye".into())));
}

#[test]
fn a_folder_is_opened_by_what_is_installed() {
    let own = open_in_file_manager(Some("/usr/bin/raven-files"), Some("/usr/bin/xdg-open"), "/v").unwrap();
    assert_eq!(own[0], "/usr/bin/raven-files");
    let other = open_in_file_manager(None, Some("/usr/bin/xdg-open"), "/v").unwrap();
    assert_eq!(other, ["/usr/bin/xdg-open", "/v"]);
    assert!(open_in_file_manager(None, None, "/v").is_err());
    assert!(open_failure("/v", "no").contains("/v"));
}
