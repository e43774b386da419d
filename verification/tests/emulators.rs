use raven_gaming::collections::NameSet;
use raven_gaming::emulators::{by_family, catalogue, installed, prerequisites, FAMILIES};
use raven_gaming::gpu::{Vendor, VulkanIcd};

#[test]
fn every_family_has_something_in_it() {
    for family in FAMILIES {
        assert!(!by_family(family).is_empty(), "{} has no emulators", family.title());
    }
}

#[test]
fn the_catalogue_is_all_accounted_for() {
    // Every entry appears under exactly one family shelf, so none can be listed twice or vanish
    // from the page.
    let shelved: usize = FAMILIES.iter().map(|f| by_family(*f).len()).sum();
    assert_eq!(shelved, catalogue().len());
}

#[test]
fn no_two_entries_share_a_package_or_a_name() {
    let all = catalogue();
    let mut packages: Vec<&str> = all.iter().map(|e| e.package).collect();
    let before = packages.len();
    packages.sort_unstable();
    packages.dedup();
    assert_eq!(packages.len(), before, "a package is listed twice");
    let mut names: Vec<&str> = all.iter().map(|e| e.name).collect();
    names.sort_unstable();
    names.dedup();
    assert_eq!(names.len(), before);
}

#[test]
fn every_entry_is_installable_and_runnable() {
    for emulator in catalogue() {
        assert!(!emulator.package.is_empty(), "{} has no package", emulator.name);
        assert!(!emulator.binary.is_empty(), "{} has no binary", emulator.name);
        assert!(
            !emulator.systems.is_empty(),
            "{} says nothing about what it runs",
            emulator.name
        );
        // A package name that would be refused before it reached rvn is a bug in this table, not
        // in the person's typing.
        assert!(
            emulator
                .package
                .chars()
                .all(|c| c.is_ascii_alphanumeric() || matches!(c, '-' | '_' | '.' | '+')),
            "{} has a package name rvn would refuse",
            emulator.package
        );
    }
}

#[test]
fn the_consoles_that_need_a_bios_say_so() {
    // The single most common reason a freshly installed emulator does nothing. If these lose
    // their caveat the page stops being honest.
    let all = catalogue();
    for name in ["PCSX2", "DuckStation", "xemu", "melonDS", "Ryujinx"] {
        let entry = all.iter().find(|e| e.name == name).unwrap();
        let caveat = entry.caveat.expect("should carry a caveat");
        assert!(
            caveat.contains("BIOS") || caveat.contains("firmware") || caveat.contains("keys"),
            "{name}'s caveat does not mention what is needed"
        );
    }
}

#[test]
fn nothing_in_the_catalogue_offers_to_supply_a_bios() {
    for emulator in catalogue() {
        let caveat = emulator.caveat.unwrap_or_default().to_lowercase();
        assert!(
            !caveat.contains("download") || caveat.contains("sony publishes"),
            "{} implies this app can fetch a BIOS",
            emulator.name
        );
    }
}

#[test]
fn prerequisites_point_at_a_page_that_exists() {
    let checks = prerequisites(&Vec::new(), &Vec::new(), false, 0);
    assert_eq!(checks.len(), 3);
    for check in &checks {
        assert!(matches!(check.page, "graphics" | "controllers"));
        assert!(!check.detail.is_empty());
    }
    // With no cards and no pads, nothing is satisfied except possibly the 32-bit stack, which is
    // about this machine rather than input.
    assert!(!checks[0].met);
    assert!(!checks[1].met);
}

#[test]
fn a_connected_controller_reads_as_english() {
    let none = (Vec::new(), Vec::new());
    assert!(prerequisites(&none.0, &none.1, false, 1)[1].detail.contains("One controller"));
    assert!(prerequisites(&none.0, &none.1, false, 3)[1].detail.contains("3 controllers"));
}

#[test]
fn an_installed_emulator_is_found_by_its_program() {
    let all = catalogue();
    let commands = NameSet::of(&vec![all[0].binary.to_string()]);
    assert!(all[0].is_installed(&commands));
    let found = installed(&commands);
    assert!(found.iter().any(|e| e.name == all[0].name));
    assert!(found.iter().all(|e| e.binary == all[0].binary));
    assert!(installed(&NameSet::new()).is_empty());
}

#[test]
fn a_driver_that_can_be_loaded_is_a_prerequisite_met() {
    let icds = vec![VulkanIcd {
        file: "radeon_icd.json".into(),
        vendor: Vendor::Amd,
        library_present: true,
    }];
    let checks = prerequisites(&Vec::new(), &icds, true, 0);
    assert!(checks[2].met);
}

#[test]
fn each_emulator_stands_on_one_shelf_once() {
    for emulator in catalogue() {
        for family in FAMILIES {
            let times = by_family(family).iter().filter(|e| e.name == emulator.name).count();
            assert_eq!(times, if family == emulator.family { 1 } else { 0 }, "{}", emulator.name);
        }
    }
}
