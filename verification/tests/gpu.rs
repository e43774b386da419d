use raven_gaming::gpu::{
    classify, clean_model, discover, drives_internal_panel, drm_nodes, gaming_gpu, has_32bit_stack,
    icd_library_file, icd_library_present, icd_vendor, is_display_class, is_hybrid, json_string,
    lookup_pci_id, primary, read_num, read_text, vulkan_icds, DriverKind, Gpu, IcdFile, PciDevice,
    Vendor,
};

#[test]
fn display_controllers_are_class_03() {
    assert!(is_display_class(0x030000));
    assert!(is_display_class(0x030200));
    assert!(!is_display_class(0x000000));
    assert!(!is_display_class(0x040300));
}

#[test]
fn vendors_come_from_their_pci_ids() {
    assert_eq!(Vendor::from_id(0x10de), Vendor::Nvidia);
    assert_eq!(Vendor::from_id(0x1002), Vendor::Amd);
    assert_eq!(Vendor::from_id(0x8086), Vendor::Intel);
    assert_eq!(Vendor::from_id(0x1234), Vendor::Other);
}

#[test]
fn nouveau_is_not_a_gaming_driver() {
    assert!(!DriverKind::from_module(Some("nouveau")).plays_games());
    assert!(!DriverKind::from_module(None).plays_games());
    assert!(DriverKind::from_module(Some("nvidia")).plays_games());
    assert!(DriverKind::from_module(Some("amdgpu")).plays_games());
    assert!(DriverKind::from_module(Some("i915")).plays_games());
    assert_eq!(DriverKind::from_module(Some("xe")), DriverKind::Intel);
    assert!(!DriverKind::from_module(Some("vfio-pci")).plays_games());
}

const IDS: &str = "\
# comment
1002  Advanced Micro Devices, Inc. [AMD/ATI]
\t15d8  Picasso/Raven 2 [Radeon Vega Series]
10de  NVIDIA Corporation
\t2191  TU116M [GeForce GTX 1660 Ti Mobile]
\t\t1043 1d81  Some laptop
\t2192  TU116M
";

#[test]
fn a_pci_id_lookup_finds_the_retail_name() {
    let ids = IDS;
    assert_eq!(
        lookup_pci_id(ids, 0x10de, 0x2191).as_deref(),
        Some("GeForce GTX 1660 Ti Mobile")
    );
    assert_eq!(lookup_pci_id(ids, 0x1002, 0x15d8).as_deref(), Some("Radeon Vega Series"));
    // A name with no bracket is kept whole.
    assert_eq!(lookup_pci_id(ids, 0x10de, 0x2192).as_deref(), Some("TU116M"));
    // A subsystem line is never mistaken for a device.
    assert_eq!(lookup_pci_id(ids, 0x10de, 0x1d81), None);
    // An absent device under a present vendor is absent.
    assert_eq!(lookup_pci_id(ids, 0x10de, 0x9999), None);
}

#[test]
fn an_icd_manifest_is_read_for_its_library() {
    let manifest = r#"{"file_format_version":"1.0.0","ICD":{"library_path":"libGLX_nvidia.so.0","api_version":"1.3"}}"#;
    assert!(icd_library_present(manifest, false));
    let absolute = r#"{"ICD":{"library_path":"/nonexistent/libvulkan_thing.so"}}"#;
    assert!(!icd_library_present(absolute, false));
    assert!(icd_library_present(absolute, true));
    assert!(!icd_library_present("{}", false));
    // Only an absolute path is looked for on disk.
    assert_eq!(icd_library_file(manifest), None);
    assert_eq!(icd_library_file(absolute).as_deref(), Some("/nonexistent/libvulkan_thing.so"));
    assert_eq!(json_string(manifest, "api_version").as_deref(), Some("1.3"));
}

#[test]
fn icd_files_name_their_vendor() {
    assert_eq!(icd_vendor("nvidia_icd.json"), Vendor::Nvidia);
    assert_eq!(icd_vendor("radeon_icd.x86_64.json"), Vendor::Amd);
    assert_eq!(icd_vendor("intel_hasvk_icd.json"), Vendor::Intel);
    assert_eq!(icd_vendor("lvp_icd.json"), Vendor::Other);
}

fn gpu(address: &str, vendor: Vendor, panel: bool, boot: bool) -> Gpu {
    Gpu {
        address: address.into(),
        vendor,
        vendor_id: 0,
        device_id: 0,
        model: String::new(),
        driver: DriverKind::Unbound,
        module: None,
        card: Some("card0".into()),
        render_node: Some("/dev/dri/renderD128".into()),
        boot_vga: boot,
        drives_internal_panel: panel,
        integrated: false,
    }
}

/// As they are discovered: raw signals in, classified out.
fn machine(gpus: Vec<Gpu>) -> Vec<Gpu> {
    let mut gpus = gpus;
    classify(&mut gpus);
    gpus
}

#[test]
fn the_discrete_card_is_the_one_to_play_on() {
    // A GTX 1660 Ti with no connectors in use, beside a Vega iGPU that has the panel and that the
    // firmware booted on.
    let gpus = machine(vec![
        gpu("0000:01:00.0", Vendor::Nvidia, false, false),
        gpu("0000:05:00.0", Vendor::Amd, true, true),
    ]);
    assert!(is_hybrid(&gpus));
    assert!(!gpus[0].is_integrated());
    assert!(gpus[1].is_integrated());
    assert_eq!(gaming_gpu(&gpus).unwrap().address, "0000:01:00.0");
    // The panel's card is what the desktop is already on.
    assert_eq!(primary(&gpus).unwrap().address, "0000:05:00.0");
}

#[test]
fn boot_vga_alone_marks_the_integrated_card_on_a_laptop() {
    // Some laptops expose no connector at all on the iGPU; boot_vga is then the only thing
    // telling the two apart.
    let gpus = machine(vec![
        gpu("0000:00:02.0", Vendor::Intel, false, true),
        gpu("0000:01:00.0", Vendor::Nvidia, false, false),
    ]);
    // No panel anywhere means this does not look like a laptop, so boot_vga is not read as
    // "integrated".
    assert!(!gpus[0].is_integrated());

    let gpus = machine(vec![
        gpu("0000:00:02.0", Vendor::Intel, true, true),
        gpu("0000:01:00.0", Vendor::Nvidia, false, false),
    ]);
    assert!(gpus[0].is_integrated());
    assert_eq!(gaming_gpu(&gpus).unwrap().address, "0000:01:00.0");
}

#[test]
fn two_cards_in_a_desktop_are_both_discrete() {
    // No panel: boot_vga says which one the firmware picked, not which one is built in. Neither is
    // integrated, and the app must not start recommending an offload.
    let gpus = machine(vec![
        gpu("0000:01:00.0", Vendor::Nvidia, false, true),
        gpu("0000:02:00.0", Vendor::Amd, false, false),
    ]);
    assert!(!is_hybrid(&gpus));
    assert!(gpus.iter().all(|g| !g.is_integrated()));
    // The first of two equals, so the answer does not depend on the order sysfs happened to list
    // them in.
    assert_eq!(gaming_gpu(&gpus).unwrap().address, "0000:01:00.0");
}

#[test]
fn a_panel_on_the_discrete_card_marks_neither() {
    // A muxed laptop: the panel is on the NVIDIA card, the firmware booted on the Intel one. Both
    // signals fire, on different cards.
    let gpus = machine(vec![
        gpu("0000:00:02.0", Vendor::Intel, false, true),
        gpu("0000:01:00.0", Vendor::Nvidia, true, false),
    ]);
    assert!(gpus.iter().all(|g| !g.is_integrated()));
    assert!(!is_hybrid(&gpus));
    assert_eq!(gaming_gpu(&gpus).unwrap().address, "0000:01:00.0");
}

#[test]
fn one_card_is_not_a_hybrid_machine() {
    let gpus = machine(vec![gpu("0000:01:00.0", Vendor::Amd, true, true)]);
    assert!(!is_hybrid(&gpus));
    assert!(!gpus[0].is_integrated());
    assert_eq!(gaming_gpu(&gpus).unwrap().address, "0000:01:00.0");
    assert_eq!(primary(&gpus).unwrap().address, "0000:01:00.0");
}

#[test]
fn a_machine_with_no_card_answers_nothing() {
    assert!(gaming_gpu(&[]).is_none());
    assert!(primary(&[]).is_none());
    assert!(!is_hybrid(&[]));
}

fn device(address: &str, class: &str, vendor: &str, id: &str) -> PciDevice {
    PciDevice {
        address: address.into(),
        class: Some(class.into()),
        vendor: Some(vendor.into()),
        device: Some(id.into()),
        boot_vga: Some("1\n".into()),
        driver: Some("nvidia".into()),
        nodes: vec!["card1".into(), "renderD128".into()],
        connectors: vec!["card1-eDP-1".into()],
    }
}

#[test]
fn cards_are_discovered_among_the_devices() {
    let found = discover(
        vec![
            device("0000:01:00.0", "0x030000\n", "0x10de\n", "0x2191\n"),
            device("0000:00:1f.3", "0x040300\n", "0x8086\n", "0x1234\n"),
        ],
        &vec![IDS.to_string()],
    );
    assert_eq!(found.len(), 1);
    assert_eq!(found[0].title(), "GeForce GTX 1660 Ti Mobile");
    assert_eq!(found[0].driver, DriverKind::NvidiaProprietary);
    assert_eq!(found[0].card.as_deref(), Some("card1"));
    assert_eq!(found[0].render_node.as_deref(), Some("/dev/dri/renderD128"));
    assert!(found[0].boot_vga);
    assert!(found[0].drives_internal_panel);
}

#[test]
fn nodes_and_panels_are_told_by_name() {
    assert_eq!(
        drm_nodes(&vec!["controlD64".into(), "card0".into(), "renderD129".into()]),
        (Some("card0".into()), Some("/dev/dri/renderD129".into()))
    );
    assert_eq!(drm_nodes(&Vec::new()), (None, None));
    assert!(drives_internal_panel("card0", &vec!["card0-eDP-1".into()]));
    assert!(!drives_internal_panel("card0", &vec!["card1-eDP-1".into(), "card0-HDMI-A-1".into()]));
}

#[test]
fn files_are_read_without_their_line_feed() {
    assert_eq!(read_text(Some(" high \n")).as_deref(), Some("high"));
    assert_eq!(read_text(None), None);
    assert_eq!(read_num(Some("42\n")), Some(42));
    assert_eq!(read_num(Some("4x2\n")), None);
    assert_eq!(clean_model("TU116M [GeForce GTX 1660 Ti Mobile]"), "GeForce GTX 1660 Ti Mobile");
}

#[test]
fn manifests_become_drivers() {
    let file = |name: &str, text: &str, on_disk: bool| IcdFile {
        file: name.into(),
        text: text.into(),
        library_on_disk: on_disk,
    };
    let found = vulkan_icds(&vec![
        file("radeon_icd.json", r#"{"ICD":{"library_path":"/usr/lib/libvulkan_radeon.so"}}"#, true),
        file("nvidia_icd.json", r#"{"ICD":{"library_path":"/gone/libGLX_nvidia.so"}}"#, false),
    ]);
    assert_eq!(found.len(), 2);
    let radeon = found.iter().find(|i| i.vendor == Vendor::Amd).unwrap();
    assert!(radeon.library_present);
    let nvidia = found.iter().find(|i| i.vendor == Vendor::Nvidia).unwrap();
    assert!(!nvidia.library_present);
    assert!(has_32bit_stack(true, false) && has_32bit_stack(false, true) && !has_32bit_stack(false, false));
}

#[test]
fn a_card_without_a_name_is_called_by_its_ids() {
    let mut nameless = gpu("0000:01:00.0", Vendor::Amd, false, false);
    nameless.vendor_id = 0x1002;
    nameless.device_id = 0x15d8;
    assert!(nameless.title().contains("15d8"), "{}", nameless.title());
    for vendor in [Vendor::Nvidia, Vendor::Amd, Vendor::Intel, Vendor::Other] {
        assert!(!vendor.name().is_empty());
        assert!(!vendor.tint().is_empty());
    }
}

#[test]
fn the_firmwares_card_comes_before_one_that_renders() {
    let first = Gpu {
        boot_vga: false,
        render_node: Some("/dev/dri/renderD128".into()),
        ..gpu("0000:01:00.0", Vendor::Nvidia, false, false)
    };
    let second = Gpu {
        boot_vga: true,
        render_node: None,
        ..gpu("0000:05:00.0", Vendor::Amd, false, true)
    };
    assert_eq!(primary(&[first, second]).unwrap().address, "0000:05:00.0");
}

#[test]
fn nodes_have_a_number_and_nothing_else() {
    assert_eq!(
        drm_nodes(&vec!["card".into(), "renderD".into(), "renderDx".into(), "card0-eDP-1".into()]),
        (None, None)
    );
}
