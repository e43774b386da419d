use raven_gaming::checks::{
    all, card_to_play_on, combined_fixes, has_string, list, list_str, owns_vendor, score, verdict,
    Check, Fix, Observed, State, System,
};
use raven_gaming::collections::NameSet;
use raven_gaming::drivers::{DkmsModule, Kernel, Requirement};
use raven_gaming::gpu::{DriverKind, Gpu, Vendor, VulkanIcd};
use raven_gaming::tune::Settings;

fn check(state: State, fix: Option<Fix>) -> Check {
    Check { title: "x".into(), detail: "y".into(), state, fix }
}

fn card(vendor: Vendor, driver: DriverKind) -> Gpu {
    Gpu {
        address: "0000:01:00.0".into(),
        vendor,
        vendor_id: 0,
        device_id: 0x2191,
        model: "Card".into(),
        driver,
        module: None,
        card: Some("card0".into()),
        render_node: Some("/dev/dri/renderD128".into()),
        boot_vga: true,
        drives_internal_panel: false,
        integrated: false,
    }
}

fn settings(applied: bool) -> Settings {
    let value = |v: &str| if applied { Some(v.to_string()) } else { None };
    Settings {
        max_map_count: value("2147483642\n"),
        split_lock_mitigate: value("0\n"),
        swappiness: value("10\n"),
        limits: value("Max open files            1048576              1048576              files\n"),
        sysctl_file: applied,
        limits_file: applied,
    }
}

fn observed(good: bool) -> Observed {
    Observed {
        dkms_available: good,
        icds: if good {
            vec![VulkanIcd {
                file: "radeon_icd.x86_64.json".into(),
                vendor: Vendor::Amd,
                library_present: true,
            }]
        } else {
            Vec::new()
        },
        vulkaninfo: good,
        has_32bit_stack: good,
        settings: settings(good),
        steam_installed: good,
        games: 3,
    }
}

fn system(good: bool) -> System {
    let packages: Vec<String> = if good {
        [
            "mesa", "lib32-mesa", "vulkan-radeon", "lib32-vulkan-radeon", "vulkan-icd-loader",
            "lib32-vulkan-icd-loader", "gamemode", "lib32-gamemode", "mangohud", "lib32-mangohud",
            "gamescope", "steam", "vulkan-tools",
        ]
        .iter()
        .map(|s| s.to_string())
        .collect()
    } else {
        Vec::new()
    };
    System::read(
        vec![card(Vendor::Amd, if good { DriverKind::Amdgpu } else { DriverKind::Unbound })],
        NameSet::of(&packages),
        vec![Kernel { release: "6.17.11-raven".into(), running: true }],
        Vec::new(),
        observed(good),
    )
}

#[test]
fn one_problem_decides_the_headline() {
    let checks = vec![
        check(State::Good, None),
        check(State::Advisory, None),
        check(State::Problem, None),
    ];
    assert_eq!(verdict(&checks).0, State::Problem);
}

#[test]
fn advisories_alone_still_read_as_ready() {
    let checks = vec![check(State::Good, None), check(State::Advisory, None)];
    let (state, headline, _) = verdict(&checks);
    assert_eq!(state, State::Advisory);
    assert_eq!(headline, "Ready to play");
}

#[test]
fn everything_clear_is_the_quiet_case() {
    assert_eq!(verdict(&[check(State::Good, None)]).0, State::Good);
}

#[test]
fn unknown_checks_are_left_out_of_the_score() {
    let checks = vec![
        check(State::Good, None),
        check(State::Good, None),
        check(State::Problem, None),
        check(State::Unknown, None),
    ];
    assert_eq!(score(&checks), (2, 3));
}

#[test]
fn fixes_are_gathered_into_one_of_each_kind() {
    let checks = vec![
        check(State::Problem, Some(Fix::Install(vec!["a".into(), "b".into()]))),
        check(State::Problem, Some(Fix::Install(vec!["b".into(), "c".into()]))),
        check(State::Problem, Some(Fix::BuildModules(vec!["6.1".into()]))),
        check(State::Problem, Some(Fix::BuildModules(vec!["6.1".into(), "7.2".into()]))),
        check(State::Advisory, Some(Fix::ApplyTweaks)),
        check(State::Advisory, Some(Fix::ApplyTweaks)),
        check(State::Problem, Some(Fix::Manual("do it yourself"))),
        check(State::Good, None),
    ];
    let fixes = combined_fixes(&checks);
    assert_eq!(
        fixes,
        vec![
            // Deduplicated, and in the order the checks asked.
            Fix::Install(vec!["a".into(), "b".into(), "c".into()]),
            Fix::BuildModules(vec!["6.1".into(), "7.2".into()]),
            Fix::ApplyTweaks,
        ]
    );
}

#[test]
fn nothing_to_fix_is_no_fixes() {
    assert!(combined_fixes(&[check(State::Good, None)]).is_empty());
    assert!(combined_fixes(&[]).is_empty());
}

#[test]
fn lists_read_as_sentences() {
    assert_eq!(list_str(&[]), "");
    assert_eq!(list_str(&["one"]), "one");
    assert_eq!(list_str(&["one", "two"]), "one and two");
    assert_eq!(list_str(&["one", "two", "three"]), "one, two, and three");
    let owned: Vec<String> = vec!["a".into(), "b".into(), "c".into(), "d".into()];
    assert_eq!(list(&owned), "a, b, c, and d");
    assert!(has_string(&owned, "c"));
    assert!(!has_string(&owned, "e"));
}

#[test]
fn a_complete_machine_has_nothing_to_fix() {
    let found = all(&system(true));
    for check in &found {
        assert_ne!(check.state, State::Problem, "{}: {}", check.title, check.detail);
    }
    assert!(found.iter().all(|c| c.state != State::Good || c.fix.is_none()));
}

#[test]
fn an_empty_machine_has_problems_and_fixes() {
    let found = all(&system(false));
    assert_eq!(verdict(&found).0, State::Problem);
    let fixes = combined_fixes(&found);
    assert!(fixes.iter().any(|f| matches!(f, Fix::Install(_))));
    assert!(fixes.contains(&Fix::ApplyTweaks));
    let (good, total) = score(&found);
    assert!(good < total);
}

#[test]
fn a_kernel_without_its_module_is_offered_a_build() {
    let mut machine = system(true);
    machine.dkms = vec![DkmsModule {
        name: "nvidia".into(),
        version: "1.0".into(),
        kernel: "6.1.0".into(),
        state: "installed".into(),
    }];
    let found = all(&machine);
    assert!(found
        .iter()
        .any(|c| c.fix == Some(Fix::BuildModules(vec!["6.17.11-raven".into()]))));
}

#[test]
fn a_system_knows_its_packages_and_cards() {
    let machine = system(true);
    assert!(machine.has("mesa"));
    assert!(!machine.has("nvidia-utils"));
    assert!(owns_vendor(&machine.gpus, Vendor::Amd));
    assert!(!owns_vendor(&machine.gpus, Vendor::Nvidia));
    assert_eq!(card_to_play_on(&machine.gpus).unwrap().address, "0000:01:00.0");
    assert!(card_to_play_on(&Vec::new()).is_none());
}

#[test]
fn states_have_an_icon_a_class_and_a_name() {
    for state in [State::Good, State::Advisory, State::Problem, State::Unknown] {
        assert!(state.icon().ends_with("-symbolic"));
        assert!(!state.css_class().is_empty());
        assert!(!state.text().is_empty());
    }
    assert!(State::Good < State::Advisory && State::Advisory < State::Problem);
}

#[test]
fn a_missing_driver_is_offered_once() {
    let mut machine = system(false);
    machine.gpus = vec![card(Vendor::Nvidia, DriverKind::Nouveau)];
    let requirement = |package: &str, essential: bool| Requirement {
        package: package.into(),
        reason: "why".into(),
        essential,
    };
    machine.missing = vec![
        requirement("nvidia-utils", true),
        requirement("lib32-nvidia-utils", true),
        requirement("vulkan-icd-loader", true),
        requirement("lib32-mesa", false),
    ];
    let found = all(&machine);
    assert_eq!(
        found[0].fix,
        Some(Fix::Install(vec!["nvidia-utils".into(), "lib32-nvidia-utils".into()]))
    );
    assert_eq!(found[1].fix, Some(Fix::Install(vec!["vulkan-icd-loader".into()])));
    assert!(found[1].detail.contains("nvidia-utils — why"));
    assert_eq!(found[4].title, "32-bit support");
    assert_eq!(found[4].fix, Some(Fix::Install(vec!["lib32-mesa".into()])));
    assert_eq!(
        combined_fixes(&found)[0],
        Fix::Install(vec![
            "nvidia-utils".into(),
            "lib32-nvidia-utils".into(),
            "vulkan-icd-loader".into(),
            "lib32-mesa".into(),
            "steam".into(),
            "gamemode".into(),
            "mangohud".into(),
        ])
    );
    // With a driver in place the libraries check asks for the rest of it.
    machine.gpus = vec![card(Vendor::Nvidia, DriverKind::NvidiaProprietary)];
    machine.missing = vec![requirement("lib32-nvidia-utils", true)];
    let found = all(&machine);
    assert_eq!(found[0].state, State::Good);
    assert_eq!(found[1].fix, Some(Fix::Install(vec!["lib32-nvidia-utils".into()])));
    assert_eq!(found[4].state, State::Problem);
    assert_eq!(found[4].fix, None);
}

#[test]
fn vulkan_that_nothing_can_try_is_unknown() {
    let mut machine = system(true);
    assert_eq!(all(&machine)[3].state, State::Good);
    machine.observed.vulkaninfo = false;
    let vulkan = &all(&machine)[3];
    assert_eq!(vulkan.title, "Vulkan");
    assert_eq!(vulkan.state, State::Unknown);
    assert_eq!(vulkan.fix, None);
    // That there is no driver at all is known without it.
    machine.observed.icds = Vec::new();
    assert_eq!(all(&machine)[3].state, State::Problem);
}

#[test]
fn nothing_is_offered_that_would_install_nothing() {
    let mut machine = system(false);
    machine.gpus = Vec::new();
    machine.missing = Vec::new();
    let found = all(&machine);
    assert_eq!((found[3].title.as_str(), found[3].state), ("Vulkan", State::Problem));
    assert_eq!(found[3].fix, None);
    assert_eq!((found[4].title.as_str(), found[4].state), ("32-bit support", State::Problem));
    assert_eq!(found[4].fix, None);
    let again = found.clone();
    assert_eq!(again, found);
}
