use raven_gaming::audio::{
    apply_quantum, apply_rate, config_path, config_text, default_outcome, devices, dump_devices,
    has_32bit_audio, is_persisted, json_name, metadata, metadata_failure, parse_dump,
    parse_metadata, parse_version, persist, removal_outcome, restore, set_args, set_default, set_metadata,
    set_outcome, wpctl_failure, Device, Engine, Latency, Removal, Undo, QUANTA, RATES,
};
use raven_gaming::collections::{NameSet, TextMap};
use raven_gaming::json::read_json;

fn names(list: &[&str]) -> NameSet {
    let owned: Vec<String> = list.iter().map(|s| s.to_string()).collect();
    NameSet::of(&owned)
}

fn milliseconds(latency: Latency) -> Option<f64> {
    latency.milliseconds().map(|(n, d)| n as f64 / d as f64)
}

fn headset() -> Device {
    Device {
        id: 55,
        name: "alsa_input.headset".into(),
        description: "Headset Mic".into(),
        is_output: false,
        is_default: false,
        api: "alsa".into(),
    }
}

#[test]
fn pipewire_metadata_is_read_key_by_key() {
    let text = "Found \"settings\" metadata 31\n\
        update: id:0 key:'clock.rate' value:'48000' type:''\n\
        update: id:0 key:'clock.quantum' value:'1024' type:''\n\
        update: id:0 key:'clock.force-quantum' value:'0' type:''\n";
    let map = parse_metadata(text);
    assert_eq!(map.get("clock.rate").map(String::as_str), Some("48000"));
    assert_eq!(map.get("clock.quantum").map(String::as_str), Some("1024"));
    assert_eq!(map.len(), 3);
}

#[test]
fn metadata_noise_is_ignored() {
    assert!(parse_metadata("").is_empty());
    assert!(parse_metadata("Found \"settings\" metadata 31\n").is_empty());
    assert!(parse_metadata("update: nonsense\n").is_empty());
}

#[test]
fn a_forced_buffer_is_the_one_in_use() {
    let engine = Engine {
        running: true,
        rate: 48_000,
        quantum: 1024,
        forced_quantum: 256,
        ..Engine::default()
    };
    assert_eq!(engine.latency().quantum, 256);
    // With nothing forced, the server's own value is the answer.
    let engine = Engine { forced_quantum: 0, ..engine };
    assert_eq!(engine.latency().quantum, 1024);
}

#[test]
fn latency_is_reported_in_milliseconds() {
    let desktop = Latency { quantum: 1024, rate: 48_000 };
    assert!((milliseconds(desktop).unwrap() - 21.33).abs() < 0.01);
    assert!(!desktop.is_good_for_games());
    let game = Latency { quantum: 256, rate: 48_000 };
    assert!((milliseconds(game).unwrap() - 5.33).abs() < 0.01);
    assert!(game.is_good_for_games());
    assert!(game.text().contains("5.3 ms"));
}

#[test]
fn a_server_that_said_nothing_reports_nothing() {
    let silent = Latency { quantum: 0, rate: 0 };
    assert_eq!(silent.milliseconds(), None);
    assert_eq!(silent.text(), "—");
    assert!(!silent.is_good_for_games());
    assert!(!Engine::default().running);
}

#[test]
fn a_metadata_write_names_its_subject() {
    // Without the "0", pw-metadata reads the key as a subject id, does nothing, and exits
    // successfully.
    let args = set_args("clock.force-quantum", 256);
    assert_eq!(args[0], "-n");
    assert_eq!(args[1], "settings");
    assert_eq!(args[2], "0", "the subject id is not optional");
    assert_eq!(args[3], "clock.force-quantum");
    assert_eq!(args[4], "256");
}

#[test]
fn only_offered_values_are_ever_sent_to_pipewire() {
    let binary = Some("/usr/bin/pw-metadata");
    assert!(apply_quantum(binary, 7).is_err());
    assert!(apply_rate(binary, 12_345).is_err());
    for quantum in QUANTA {
        assert!(!format!("{quantum}").is_empty());
        assert!(apply_quantum(binary, quantum).is_ok());
    }
    for rate in RATES {
        assert!(apply_rate(binary, rate).is_ok());
    }
}

const DUMP: &str = r#"[
  {"id":54,"type":"PipeWire:Interface:Node","info":{"props":{
    "media.class":"Audio/Sink","node.name":"alsa_output.pci-1.analog-stereo",
    "node.description":"Ryzen HD Audio Analog Stereo","device.api":"alsa"}}},
  {"id":55,"type":"PipeWire:Interface:Node","info":{"props":{
    "media.class":"Audio/Source","node.name":"alsa_input.pci-1.analog-stereo",
    "node.description":"Headset Mic","device.api":"alsa"}}},
  {"id":56,"type":"PipeWire:Interface:Node","info":{"props":{
    "media.class":"Audio/Source","node.name":"alsa_output.pci-1.analog-stereo.monitor",
    "node.description":"Monitor of Analog","device.api":"alsa"}}},
  {"id":57,"type":"PipeWire:Interface:Device","info":{"props":{}}}
]"#;

#[test]
fn a_dump_gives_up_its_sinks_and_sources() {
    let devices = parse_dump(DUMP, Some("alsa_output.pci-1.analog-stereo"), None);
    assert_eq!(devices.len(), 2, "the monitor source is not a microphone");
    assert!(devices[0].is_output);
    assert!(devices[0].is_default);
    assert_eq!(devices[0].description, "Ryzen HD Audio Analog Stereo");
    assert!(!devices[1].is_output);
    assert!(!devices[1].is_default);
}

#[test]
fn a_dump_that_is_not_json_is_no_devices() {
    assert!(parse_dump("not json", None, None).is_empty());
    assert!(parse_dump("[]", None, None).is_empty());
}

#[test]
fn the_default_device_is_read_out_of_its_json() {
    let value = r#"{"name":"alsa_output.pci-0000_05_00.6.analog-stereo"}"#.to_string();
    assert_eq!(
        json_name(Some(&value)).as_deref(),
        Some("alsa_output.pci-0000_05_00.6.analog-stereo")
    );
    assert_eq!(json_name(None), None);
    assert_eq!(json_name(Some(&"not json".to_string())), None);
}

#[test]
fn the_written_config_says_what_was_chosen() {
    let text = config_text(256, 48_000);
    assert!(text.contains("default.clock.quantum       = 256"));
    assert!(text.contains("default.clock.rate          = 48000"));
    assert!(text.contains("allowed-rates = [ 48000 ]"));
    assert!(text.contains("Raven Gaming"));
    // Nothing chosen means nothing written for it.
    let only_quantum = config_text(512, 0);
    assert!(only_quantum.contains("quantum       = 512"));
    assert!(!only_quantum.contains("clock.rate"));
}

#[test]
fn the_default_of_each_kind_comes_first() {
    let dump = read_json(DUMP).unwrap();
    let found = dump_devices(&dump, None, Some("alsa_input.pci-1.analog-stereo"));
    assert_eq!(found.len(), 2);
    assert_eq!(found.iter().filter(|d| d.is_default).count(), 1);
    for pair in found.windows(2) {
        assert!(pair[0].is_output >= pair[1].is_output, "outputs come before inputs");
    }
}

#[test]
fn the_defaults_come_out_of_the_metadata() {
    let mut defaults = TextMap::new();
    defaults.insert(
        "default.audio.sink".into(),
        r#"{"name":"alsa_output.pci-1.analog-stereo"}"#.into(),
    );
    let found = devices(Some(DUMP), Some(&defaults));
    assert!(found[0].is_default);
    assert!(!found[1].is_default);
    assert!(devices(None, Some(&defaults)).is_empty());
    assert!(devices(Some(DUMP), None).iter().all(|d| !d.is_default));
}

#[test]
fn the_engine_is_read_out_of_its_settings() {
    let settings = parse_metadata(
        "update: id:0 key:'clock.rate' value:'44100' type:''\n\
        update: id:0 key:'clock.quantum' value:'512' type:''\n\
        update: id:0 key:'clock.force-rate' value:'48000' type:''\n\
        update: id:0 key:'clock.min-quantum' value:'32' type:''\n\
        update: id:0 key:'clock.max-quantum' value:'2048' type:''\n",
    );
    let engine = Engine::read(Some(&settings), Some("1.2.3".into()));
    assert!(engine.running);
    assert_eq!(engine.version.as_deref(), Some("1.2.3"));
    assert_eq!((engine.rate, engine.quantum), (44_100, 512));
    assert_eq!((engine.forced_rate, engine.forced_quantum), (48_000, 0));
    assert_eq!((engine.min_quantum, engine.max_quantum), (32, 2048));
    assert_eq!(engine.latency(), Latency { quantum: 512, rate: 48_000 });
    assert!(!Engine::read(None, None).running);
}

#[test]
fn a_latency_at_the_edge_of_what_is_good() {
    // 504 frames at 48 kHz are exactly ten and a half milliseconds.
    assert!(Latency { quantum: 504, rate: 48_000 }.is_good_for_games());
    assert!(!Latency { quantum: 505, rate: 48_000 }.is_good_for_games());
    for (quantum, rate) in [(1u32, 3u32), (504, 48_000), (463, 44_100), (464, 44_100), (7, 0), (0, 7)] {
        let latency = Latency { quantum, rate };
        let expected = rate > 0 && quantum > 0 && quantum as f64 / rate as f64 * 1000.0 <= 10.5;
        assert_eq!(latency.is_good_for_games(), expected, "{quantum} {rate}");
    }
}

#[test]
fn metadata_of_a_failed_command_is_none() {
    assert!(metadata(false, "update: id:0 key:'a' value:'b' type:''\n").is_none());
    assert_eq!(metadata(true, "update: id:0 key:'a' value:'b' type:''\n").unwrap().len(), 1);
}

#[test]
fn a_version_is_read_out_of_the_servers_information() {
    assert_eq!(
        parse_version("id: 0\n\t\tcore.name = \"x\"\n\t\tcore.version = \"1.4.2\"\n").as_deref(),
        Some("1.4.2")
    );
    assert_eq!(parse_version(""), None);
}

#[test]
fn a_default_is_set_by_its_number() {
    let device = headset();
    assert_eq!(
        set_default(Some("/usr/bin/wpctl"), &device).unwrap(),
        ["/usr/bin/wpctl", "set-default", "55"]
    );
    assert!(set_default(None, &device).is_err());
    assert!(default_outcome(true, &device).is_ok());
    assert!(default_outcome(false, &device).is_err());
    assert!(wpctl_failure("no").ends_with("no"));
}

#[test]
fn a_setting_is_written_and_its_failures_are_said() {
    assert_eq!(
        set_metadata(Some("/usr/bin/pw-metadata"), "clock.force-rate", 48_000).unwrap(),
        ["/usr/bin/pw-metadata", "-n", "settings", "0", "clock.force-rate", "48000"]
    );
    assert!(set_metadata(None, "clock.force-rate", 48_000).is_err());
    assert!(metadata_failure("no").ends_with("no"));
    assert!(set_outcome(false, "it broke", "", "clock.force-rate").is_err());
}

#[test]
fn the_settings_file_is_found_where_it_was_written() {
    let path = config_path(Some("/home/me"), None);
    assert!(path.starts_with("/home/me/.config/"));
    assert!(is_persisted(Some("/home/me"), None, &names(&[&path])));
    assert!(!is_persisted(Some("/home/me"), None, &names(&[])));
    let elsewhere = config_path(Some("/home/me"), Some("/conf"));
    assert!(elsewhere.starts_with("/conf/"));
    assert_ne!(path, elsewhere);
    assert_eq!(persist(Some("/home/me"), None, 256, 48_000), (path, config_text(256, 48_000)));
}

#[test]
fn defaults_are_restored_step_by_step() {
    assert_eq!(restore(Undo::File, Ok(())), Ok(Some(Undo::Quantum)));
    assert_eq!(restore(Undo::Quantum, Ok(())), Ok(Some(Undo::Rate)));
    assert_eq!(restore(Undo::Rate, Ok(())), Ok(None));
    assert_eq!(restore(Undo::Quantum, Err("no".into())), Err("no".into()));
    assert!(removal_outcome("/x", &Removal::Removed).is_ok());
    assert!(removal_outcome("/x", &Removal::Absent).is_ok());
    assert!(removal_outcome("/x", &Removal::Failed("busy".into())).unwrap_err().contains("busy"));
}

#[test]
fn the_32_bit_sound_library_is_looked_for() {
    assert!(!has_32bit_audio(&names(&[])));
    assert!(has_32bit_audio(&names(&["/usr/lib32/libpulse.so.0"])));
    assert!(!has_32bit_audio(&names(&["/usr/lib/libpulse.so.0"])));
}

#[test]
fn a_choice_of_nothing_writes_no_setting() {
    assert_eq!(
        config_text(0, 0),
        "# Written by Raven Gaming. Delete this file, or use Restore in the\n# app, to go back to PipeWire's own settings.\ncontext.properties = {\n}\n"
    );
}
