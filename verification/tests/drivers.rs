use raven_gaming::collections::NameSet;
use raven_gaming::drivers::{
    command_candidates, dkms_available, dkms_status, installed_kernels, installed_packages,
    kernels_missing_modules, missing_packages, nvidia_open_supported, packages_in,
    parse_dkms_status, parse_rvn_list, process_running, requirements, running_kernel,
    strip_package_version, verdict, which, Kernel, ModuleDirectory, Process,
};
use raven_gaming::gpu::{DriverKind, Gpu, Vendor};
use raven_gaming::json::read_json;

fn nvidia(device_id: u16, driver: DriverKind) -> Gpu {
    Gpu {
        address: "0000:01:00.0".into(),
        vendor: Vendor::Nvidia,
        vendor_id: 0x10de,
        device_id,
        model: "GeForce GTX 1660 Ti Mobile".into(),
        driver,
        module: None,
        card: None,
        render_node: None,
        boot_vga: false,
        drives_internal_panel: false,
        integrated: false,
    }
}

fn names(list: &[&str]) -> NameSet {
    let owned: Vec<String> = list.iter().map(|s| s.to_string()).collect();
    NameSet::of(&owned)
}

fn two_kernels() -> Vec<Kernel> {
    vec![
        Kernel { release: "6.17.11-raven".into(), running: true },
        Kernel { release: "7.2.6-arch2-1".into(), running: false },
    ]
}

#[test]
fn both_dkms_status_formats_are_read() {
    let modern = "nvidia/615.71.09, 6.17.11-raven, x86_64: installed";
    let older = "nvidia, 615.71.09, 6.17.11-raven, x86_64: installed";
    for text in [modern, older] {
        let parsed = parse_dkms_status(text);
        assert_eq!(parsed.len(), 1, "failed on {text}");
        assert_eq!(parsed[0].name, "nvidia");
        assert_eq!(parsed[0].version, "615.71.09");
        assert_eq!(parsed[0].kernel, "6.17.11-raven");
        assert!(parsed[0].is_installed());
    }
}

#[test]
fn a_built_but_uninstalled_module_is_not_installed() {
    let parsed = parse_dkms_status("v4l2loopback/0.15.1, 6.17.11-raven, x86_64: built");
    assert!(!parsed[0].is_installed());
}

#[test]
fn dkms_noise_is_skipped() {
    let parsed = parse_dkms_status("\n\nnot a status line\nnvidia/1.0, 6.1.0, x86_64: installed\n");
    assert_eq!(parsed.len(), 1);
}

#[test]
fn a_kernel_with_no_module_built_is_reported() {
    let modules = parse_dkms_status("nvidia/615.71.09, 6.17.11-raven, x86_64: installed");
    assert_eq!(kernels_missing_modules(&modules, &two_kernels()), vec!["7.2.6-arch2-1"]);
}

#[test]
fn nothing_is_missing_when_every_kernel_has_it() {
    let modules = parse_dkms_status(
        "nvidia/1.0, 6.17.11-raven, x86_64: installed\nnvidia/1.0, 7.2.6-arch2-1, x86_64: installed",
    );
    assert!(kernels_missing_modules(&modules, &two_kernels()).is_empty());
}

#[test]
fn no_dkms_modules_means_nothing_to_rebuild() {
    let kernels = vec![Kernel { release: "6.17.11-raven".into(), running: true }];
    assert!(kernels_missing_modules(&[], &kernels).is_empty());
}

#[test]
fn turing_and_later_can_use_the_open_modules() {
    // TU116M.
    assert!(nvidia_open_supported(0x2191));
    // GP106, a Pascal card.
    assert!(!nvidia_open_supported(0x1c03));
}

#[test]
fn a_bound_driver_with_no_32_bit_libraries_is_still_broken() {
    let gpus = vec![nvidia(0x2191, DriverKind::NvidiaProprietary)];
    let installed = |p: &str| p != "lib32-nvidia-utils";
    let missing = requirements(&gpus, &installed);
    assert_eq!(missing.len(), 1);
    assert_eq!(missing[0].package, "lib32-nvidia-utils");
    assert!(missing[0].essential);
    let v = verdict(&gpus[0], &missing);
    assert!(!v.good);
    assert!(v.detail.contains("lib32-nvidia-utils"));
}

#[test]
fn a_fully_installed_card_is_ready() {
    let gpus = vec![nvidia(0x2191, DriverKind::NvidiaProprietary)];
    let missing = requirements(&gpus, &|_: &str| true);
    assert!(missing.is_empty());
    assert!(verdict(&gpus[0], &missing).good);
}

#[test]
fn the_prebuilt_nvidia_package_counts_as_a_driver() {
    let gpus = vec![nvidia(0x2191, DriverKind::NvidiaProprietary)];
    let installed = |p: &str| p == "nvidia-open";
    let missing = requirements(&gpus, &installed);
    assert!(
        !missing.iter().any(|r| r.package.contains("dkms")),
        "should not ask for a DKMS package when a prebuilt one is installed"
    );
}

#[test]
fn nouveau_is_called_out_whatever_is_installed() {
    let gpus = vec![nvidia(0x2191, DriverKind::Nouveau)];
    let v = verdict(&gpus[0], &requirements(&gpus, &|_: &str| true));
    assert!(!v.good);
    assert!(v.headline.contains("Nouveau"));
}

#[test]
fn a_card_with_nothing_bound_is_the_loudest_case() {
    let gpus = [nvidia(0x2191, DriverKind::Unbound)];
    let v = verdict(&gpus[0], &[]);
    assert!(!v.good);
    assert!(v.headline.contains("No driver"));
}

#[test]
fn requirements_do_not_repeat_across_two_cards() {
    let gpus = vec![
        nvidia(0x2191, DriverKind::NvidiaProprietary),
        Gpu {
            vendor: Vendor::Amd,
            vendor_id: 0x1002,
            device_id: 0x15d8,
            ..nvidia(0x15d8, DriverKind::Amdgpu)
        },
    ];
    let missing = requirements(&gpus, &|_: &str| false);
    let mut found: Vec<&str> = missing.iter().map(|r| r.package.as_str()).collect();
    let before = found.len();
    found.sort_unstable();
    found.dedup();
    assert_eq!(found.len(), before, "a package was recommended twice");
    assert!(found.contains(&"lib32-vulkan-radeon"));
    assert!(found.contains(&"lib32-nvidia-utils"));
    // The same question, asked of a set of names.
    assert_eq!(missing_packages(&gpus, &names(&[])), missing);
}

#[test]
fn package_directories_give_up_their_names() {
    assert_eq!(
        strip_package_version("nvidia-open-dkms-615.71.09-1").as_deref(),
        Some("nvidia-open-dkms")
    );
    assert_eq!(strip_package_version("mesa-1:26.2.2-1").as_deref(), Some("mesa"));
    assert_eq!(strip_package_version("broken"), None);
}

#[test]
fn rvn_list_events_give_up_their_packages() {
    let stdout = r#"{"event":"other"}
{"event":"installed","packages":[{"name":"mesa","version":"1"},{"name":"steam"}]}
not json
"#;
    let found = parse_rvn_list(stdout);
    assert!(found.contains("mesa"));
    assert!(found.contains("steam"));
    assert_eq!(found.len(), 2);
}

#[test]
fn an_event_without_names_lists_nothing() {
    let event = read_json(r#"{"event":"installed","packages":[{"version":"1"},7]}"#).unwrap();
    assert!(packages_in(&event).is_empty());
    let event = read_json(r#"{"packages":"mesa"}"#).unwrap();
    assert!(packages_in(&event).is_empty());
}

#[test]
fn the_database_is_read_where_rvn_is_silent() {
    let directories = vec!["mesa-26.2.2-1".to_string(), "broken".into()];
    let found = installed_packages(None, &directories);
    assert!(found.contains("mesa"));
    assert_eq!(found.len(), 1);
    let listing = r#"{"event":"installed","packages":[{"name":"steam"}]}"#;
    let found = installed_packages(Some(listing), &directories);
    assert!(found.contains("steam"));
}

#[test]
fn a_command_is_found_on_the_path() {
    let files = names(&["/opt/bin/steam", "/usr/bin/foot"]);
    assert_eq!(which("steam", Some("/usr/bin:/opt/bin"), &files).as_deref(), Some("/opt/bin/steam"));
    assert_eq!(which("kitty", Some("/usr/bin:/opt/bin"), &files), None);
    let places = command_candidates("foot", Some("/a:/b"));
    assert!(places.contains(&"/a/foot".to_string()) && places.contains(&"/b/foot".to_string()));
}

#[test]
fn a_process_is_found_by_its_name() {
    let entries = vec![
        Process { directory: "self".into(), comm: Some("pipewire\n".into()) },
        Process { directory: "12".into(), comm: Some("pipewire\n".into()) },
        Process { directory: "13".into(), comm: None },
    ];
    assert!(process_running("pipewire", &entries));
    assert!(!process_running("huginn", &entries));
}

#[test]
fn kernels_are_directories_that_can_boot() {
    let directory = |release: &str, pkgbase: bool, dep: bool| ModuleDirectory {
        release: release.into(),
        has_pkgbase: pkgbase,
        has_modules_dep: dep,
    };
    let found = installed_kernels(
        &vec![
            directory("7.2.6-arch2-1", true, false),
            directory("6.17.11-raven", true, true),
            directory("leftover", false, false),
            directory("5.4.1", false, true),
        ],
        "6.17.11-raven",
    );
    let listed: Vec<(&str, bool)> = found.iter().map(|k| (k.release.as_str(), k.running)).collect();
    assert_eq!(listed, [("6.17.11-raven", true), ("5.4.1", false), ("7.2.6-arch2-1", false)]);
    assert_eq!(running_kernel(Some("6.17.11-raven\n")), "6.17.11-raven");
}

#[test]
fn dkms_answers_only_where_it_is_installed() {
    assert!(dkms_available(&names(&["dkms"])));
    assert!(!dkms_available(&names(&[])));
    assert!(dkms_status(None).is_empty());
    assert_eq!(dkms_status(Some("nvidia/1.0, 6.1.0, x86_64: installed")).len(), 1);
}
