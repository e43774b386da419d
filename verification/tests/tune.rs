use raven_gaming::collections::NameSet;
use raven_gaming::drivers::running_kernel;
use raven_gaming::gpu::{DriverKind, Gpu, Vendor};
use raven_gaming::tune::{
    active_preset, after_powerd, after_service, apply_privileged, authorization_failure, directory_size, dkms_failure,
    dkms_install, dkms_outcome, executable_failure,
    file_failure, gpu_mode, gpu_mode_path, human_bytes, last_line, mode_file_of, open_file_limit,
    power_request, presets, root_command, root_outcome, shader_cache_dirs, steps, sysctl_path,
    thousands, tweaks, tweaks_needed, tweaks_persisted, validate_card, validate_kernel, Action,
    GpuMode, PowerStep, Preset, ServiceAnswer, Settings, Step, Tree, Tweak, LIMITS_FILE,
    SYSCTL_FILE,
};

const KERNEL: &str = "6.17.11-raven";

fn names(list: &[&str]) -> NameSet {
    let owned: Vec<String> = list.iter().map(|s| s.to_string()).collect();
    NameSet::of(&owned)
}

fn settings(limits: &str, limits_file: bool) -> Settings {
    Settings {
        max_map_count: Some("65530\n".into()),
        split_lock_mitigate: Some("1\n".into()),
        swappiness: Some("60\n".into()),
        limits: Some(limits.into()),
        sysctl_file: false,
        limits_file,
    }
}

fn card(name: Option<&str>) -> Gpu {
    Gpu {
        address: "0000:05:00.0".into(),
        vendor: Vendor::Amd,
        vendor_id: 0,
        device_id: 0,
        model: String::new(),
        driver: DriverKind::Amdgpu,
        module: None,
        card: name.map(|s| s.to_string()),
        render_node: None,
        boot_vga: false,
        drives_internal_panel: false,
        integrated: false,
    }
}

#[test]
fn a_stricter_setting_than_ours_still_counts() {
    assert!(Tweak::MaxMapCount.satisfied_by(2_147_483_642));
    assert!(Tweak::MaxMapCount.satisfied_by(4_000_000_000));
    assert!(!Tweak::MaxMapCount.satisfied_by(65_530));
    // Lower swappiness is stricter, so it satisfies.
    assert!(Tweak::Swappiness.satisfied_by(1));
    assert!(Tweak::Swappiness.satisfied_by(10));
    assert!(!Tweak::Swappiness.satisfied_by(60));
    // Split-lock mitigation is on or off; there is no stricter.
    assert!(Tweak::SplitLock.satisfied_by(0));
    assert!(!Tweak::SplitLock.satisfied_by(1));
    assert!(Tweak::FileLimit.satisfied_by(1_048_576));
    assert!(!Tweak::FileLimit.satisfied_by(4096));
}

#[test]
fn a_limit_that_needs_a_relogin_is_not_reported_as_missing() {
    let low = "Max open files            1024                 4096                 files\n";
    for limits_file in [false, true] {
        let settings = settings(low, limits_file);
        // Pending and applied must agree, and nothing but the file limit can ever be pending.
        assert!(!Tweak::FileLimit.is_pending(&settings) || Tweak::FileLimit.is_applied(&settings));
        for tweak in [Tweak::MaxMapCount, Tweak::SplitLock, Tweak::Swappiness] {
            assert!(!tweak.is_pending(&settings), "{tweak:?} cannot be pending");
        }
        assert!(
            !tweaks_needed(&settings).contains(&Tweak::FileLimit)
                || !Tweak::FileLimit.is_pending(&settings)
        );
        assert_eq!(Tweak::FileLimit.is_pending(&settings), limits_file);
    }
}

#[test]
fn a_sysctl_key_becomes_its_proc_path() {
    assert_eq!(sysctl_path("vm.max_map_count"), "/proc/sys/vm/max_map_count");
    assert_eq!(sysctl_path("kernel.split_lock_mitigate"), "/proc/sys/kernel/split_lock_mitigate");
}

#[test]
fn big_numbers_are_grouped() {
    assert_eq!(thousands(0), "0");
    assert_eq!(thousands(999), "999");
    assert_eq!(thousands(65_530), "65,530");
    assert_eq!(thousands(2_147_483_642), "2,147,483,642");
}

#[test]
fn every_action_survives_the_round_trip() {
    let kernel = running_kernel(Some("6.17.11-raven\n"));
    let kernels = names(&[KERNEL]);
    let cards = names(&["card0"]);
    let actions = [
        Action::ApplyTweaks,
        Action::RevertTweaks,
        Action::DkmsInstall { kernel },
        Action::GpuMode { card: "card0".into(), mode: GpuMode::High },
    ];
    for action in actions {
        let args = action.args();
        assert_eq!(args[0], "--apply");
        assert!(!action.description().is_empty());
        assert_eq!(Action::parse(&args[1..], &kernels, &cards), Ok(action));
    }
}

#[test]
fn the_privileged_half_refuses_anything_not_on_the_list() {
    for args in [
        vec!["rm".to_string(), "-rf".into()],
        vec![],
        vec!["tweaks".to_string(), "extra".into()],
        vec!["gpu-mode".to_string(), "card0".into(), "melt".into()],
    ] {
        assert!(
            Action::parse(&args, &names(&[KERNEL]), &names(&["card0"])).is_err(),
            "accepted {args:?}"
        );
        assert!(apply_privileged(&args, &names(&[KERNEL]), &names(&["card0"])).is_err());
    }
}

#[test]
fn a_kernel_argument_cannot_walk_out_of_its_directory() {
    let kernels = names(&[KERNEL, "../../etc", "", "a/b"]);
    for release in ["../../etc", "6.1; rm -rf /", "", &"x".repeat(80), "a/b"] {
        assert!(validate_kernel(release, &kernels).is_err(), "accepted {release:?}");
    }
    // The running kernel is always installed, by definition.
    assert!(validate_kernel(&running_kernel(Some("6.17.11-raven\n")), &kernels).is_ok());
    assert!(validate_kernel("6.1.0", &kernels).is_err());
}

#[test]
fn a_card_argument_has_to_be_a_card() {
    let cards = names(&["card0", "cardX", "card"]);
    for card in ["cardX", "../card0", "card", "0", "card0/../.."] {
        assert!(validate_card(card, &cards).is_err(), "accepted {card:?}");
    }
    assert!(validate_card("card0", &cards).is_ok());
    assert!(validate_card("card1", &cards).is_err());
}

#[test]
fn presets_and_power_profiles_agree_both_ways() {
    for preset in presets() {
        assert_eq!(Preset::from_power_profile(preset.power_profile()), Some(preset));
    }
    assert_eq!(Preset::from_power_profile("nonsense"), None);
}

#[test]
fn gpu_modes_round_trip_through_sysfs() {
    for mode in [GpuMode::Auto, GpuMode::High, GpuMode::Low] {
        assert_eq!(GpuMode::from_sysfs(mode.sysfs_value()), Some(mode));
    }
    assert_eq!(GpuMode::from_sysfs("manual"), None);
    // sysfs reads come back with a newline.
    assert_eq!(GpuMode::from_sysfs("auto\n"), Some(GpuMode::Auto));
}

#[test]
fn byte_sizes_read_the_way_people_say_them() {
    assert_eq!(human_bytes(0), "0 B");
    assert_eq!(human_bytes(512), "512 B");
    assert_eq!(human_bytes(2048), "2.0 KB");
    assert_eq!(human_bytes(5_368_709_120), "5.0 GB");
}

#[test]
fn byte_sizes_round_as_a_double_does() {
    let units = ["B", "KB", "MB", "GB", "TB"];
    for bytes in [
        1023u64,
        1024,
        1075,
        1076,
        1_048_575,
        1_048_576,
        1_073_741_823,
        123_456_789_012,
        1 << 50,
        (1 << 60) + 12_345,
        u64::MAX,
    ] {
        let mut value = bytes as f64;
        let mut unit = 0;
        while value >= 1024.0 && unit + 1 < units.len() {
            value /= 1024.0;
            unit += 1;
        }
        let expected = if unit == 0 {
            format!("{bytes} B")
        } else {
            format!("{value:.1} {}", units[unit])
        };
        assert_eq!(human_bytes(bytes), expected);
    }
}

#[test]
fn a_setting_says_what_would_change() {
    let settings = settings("", false);
    assert_eq!(tweaks_needed(&settings), tweaks());
    assert!(!tweaks_persisted(&settings));
    for tweak in tweaks() {
        assert!(!tweak.title().is_empty() && !tweak.subtitle().is_empty());
        assert!(tweak.satisfied_by(tweak.wanted()));
        assert!(!tweak.is_applied(&settings));
    }
    assert_eq!(Tweak::MaxMapCount.current(&settings), Some(65_530));
    assert!(Tweak::MaxMapCount.change_text(&settings).contains("65,530"));
    assert_eq!(Tweak::FileLimit.key(), None);
    assert_eq!(Tweak::Swappiness.key(), Some("vm.swappiness"));
}

#[test]
fn the_limit_of_open_files_is_the_soft_one() {
    let limits = "Limit                     Soft Limit           Hard Limit           Units\n\
        Max open files            1024                 524288               files\n";
    assert_eq!(open_file_limit(Some(limits)), Some(1024));
    assert_eq!(open_file_limit(Some("Max processes 1 2 x\n")), None);
    assert_eq!(open_file_limit(None), None);
}

#[test]
fn a_clock_policy_is_beside_the_card() {
    let path = mode_file_of("card0");
    assert!(path.starts_with("/sys/class/drm/card0/"));
    assert_eq!(gpu_mode_path(&card(Some("card0")), &names(&[&path])), Some(path));
    assert_eq!(gpu_mode_path(&card(Some("card0")), &names(&[])), None);
    assert_eq!(gpu_mode_path(&card(None), &names(&[])), None);
    assert_eq!(gpu_mode(Some("high\n")), Some(GpuMode::High));
    assert_eq!(gpu_mode(None), None);
}

#[test]
fn the_active_preset_is_asked_of_two_services() {
    assert_eq!(active_preset(None, None), None);
    let by_service = active_preset(None, Some("performance\n"));
    assert_eq!(by_service, Some(Preset::Performance));
    assert!(presets().iter().all(|p| !p.title().is_empty() && !p.icon().is_empty()));
}

#[test]
fn a_profile_is_set_by_whoever_answers() {
    assert!(power_request("performance").unwrap().contains("performance"));
    assert_eq!(power_request("turbo"), Err("Not a power profile: turbo".into()));
    assert_eq!(after_powerd(None), PowerStep::AskService);
    assert_eq!(after_powerd(Some("ok")), PowerStep::Done);
    assert!(matches!(after_powerd(Some("error: busy")), PowerStep::Refused(_)));
    assert!(after_service(&ServiceAnswer::Ran(true)).is_ok());
    assert_eq!(
        after_service(&ServiceAnswer::Ran(false)),
        Err("The system power-profile service rejected this change".into())
    );
    assert_eq!(
        after_service(&ServiceAnswer::Absent),
        Err("Neither raven-powerd nor power-profiles-daemon is available".into())
    );
    assert!(after_service(&ServiceAnswer::Failed("no".into())).unwrap_err().ends_with("no"));
}

#[test]
fn reverting_removes_the_files_that_applying_wrote() {
    let written: Vec<String> = steps(&Action::ApplyTweaks)
        .into_iter()
        .filter_map(|s| match s {
            Step::WriteNew { path, .. } => Some(path),
            _ => None,
        })
        .collect();
    assert_eq!(written, [SYSCTL_FILE, LIMITS_FILE]);
    let removed: Vec<String> = steps(&Action::RevertTweaks)
        .into_iter()
        .filter_map(|s| match s {
            Step::Remove { path } => Some(path),
            _ => None,
        })
        .collect();
    assert_eq!(removed, written);
    assert_eq!(
        steps(&Action::DkmsInstall { kernel: KERNEL.into() }),
        [Step::Dkms { kernel: KERNEL.into() }]
    );
    assert_eq!(
        apply_privileged(&["tweaks".to_string()], &NameSet::new(), &NameSet::new()).unwrap(),
        steps(&Action::ApplyTweaks)
    );
}

#[test]
fn the_privileged_half_says_what_failed() {
    assert_eq!(
        dkms_install(Some("/usr/bin/dkms"), KERNEL).unwrap(),
        ["/usr/bin/dkms", "autoinstall", "-k", KERNEL]
    );
    assert_eq!(dkms_install(None, KERNEL), Err("dkms is not installed".into()));
    assert_eq!(dkms_failure("no"), "Could not run dkms: no");
    assert!(executable_failure("no").ends_with(": no"));
    assert_eq!(authorization_failure("no"), "Could not request authorization: no");
    assert!(dkms_outcome(true, "", "").is_ok());
    assert!(dkms_outcome(false, "a\nbad module\n", "").unwrap_err().contains("bad module"));
    assert!(root_outcome(true, "").is_ok());
    assert!(root_outcome(false, "not allowed\n").unwrap_err().contains("not allowed"));
    assert_eq!(last_line("a\nb\n\n").as_deref(), Some("b"));
    assert_eq!(last_line("\n\n"), None);
    assert!(file_failure("/etc/x", "denied").contains("/etc/x"));
}

#[test]
fn root_is_asked_for_by_what_is_installed() {
    let action = Action::ApplyTweaks;
    let own = "/usr/bin/raven-gaming";
    let by_run0 = root_command(&action, own, true, true, true).unwrap();
    let by_pkexec = root_command(&action, own, true, false, true).unwrap();
    assert!(by_run0[0].contains("run0"));
    assert!(by_pkexec[0].contains("pkexec"));
    for command in [by_run0, by_pkexec] {
        assert_eq!(command[command.len() - 3..], [own, "--apply", "tweaks"]);
    }
    assert!(root_command(&action, own, true, false, false).is_err());
}

#[test]
fn shader_caches_are_below_the_cache() {
    let found = shader_cache_dirs(Some("/home/me"), None);
    assert!(!found.is_empty());
    assert!(found.iter().any(|p| p.starts_with("/home/me/.cache/")));
    assert!(shader_cache_dirs(None, None).is_empty());
}

#[test]
fn a_cache_is_measured_to_four_levels() {
    let tree = vec![Tree::Folder(vec![Tree::File(3)]), Tree::File(4)];
    assert_eq!(directory_size(&tree, 0), 7);
    assert_eq!(directory_size(&tree, 4), 4);
    assert_eq!(directory_size(&tree, 5), 0);
}

#[test]
fn a_kernel_argument_is_not_a_way_out() {
    let kernels = names(&[KERNEL, ".", "..", "..."]);
    for release in [".", ".."] {
        assert_eq!(
            validate_kernel(release, &kernels),
            Err(format!("Not a kernel release: {release}"))
        );
        let args = vec!["dkms-install".to_string(), release.to_string()];
        assert!(Action::parse(&args, &kernels, &names(&[])).is_err());
    }
    assert!(validate_kernel("...", &kernels).is_ok());
}

#[test]
fn white_space_round_a_mode_does_not_matter() {
    assert_eq!(GpuMode::from_sysfs(" \thigh \n\n"), Some(GpuMode::High));
    assert_eq!(GpuMode::from_sysfs("hi gh"), None);
}
