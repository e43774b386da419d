use raven_gaming::checks::Fix;
use raven_gaming::collections::NameSet;
use raven_gaming::gpu::Vendor;
use raven_gaming::graphics::requirement_belongs_to;
use raven_gaming::overview::fix_summary;
use raven_gaming::window::{icon_fallbacks, icon_name, page, page_index, pages, start, Start};

#[test]
fn the_fix_summary_reads_as_a_sentence() {
    assert_eq!(fix_summary(&[]), "");
    assert_eq!(fix_summary(&[Fix::Install(vec!["a".into()])]), "1 package");
    assert_eq!(
        fix_summary(&[Fix::Install(vec!["a".into(), "b".into()]), Fix::ApplyTweaks]),
        "2 packages and system settings"
    );
    assert_eq!(
        fix_summary(&[
            Fix::Install(vec!["a".into()]),
            Fix::BuildModules(vec!["6.1".into()]),
            Fix::ApplyTweaks,
        ]),
        "1 package, driver modules for 1 kernel, and system settings"
    );
    assert_eq!(
        fix_summary(&[Fix::Manual("x"), Fix::BuildModules(vec!["6.1".into(), "7.2".into()])]),
        "driver modules for 2 kernels"
    );
}

#[test]
fn each_missing_package_is_shown_under_its_own_card() {
    assert!(requirement_belongs_to("lib32-nvidia-utils", Vendor::Nvidia));
    assert!(!requirement_belongs_to("lib32-nvidia-utils", Vendor::Amd));
    assert!(requirement_belongs_to("lib32-vulkan-radeon", Vendor::Amd));
    assert!(requirement_belongs_to("lib32-mesa", Vendor::Amd));
    assert!(requirement_belongs_to("vulkan-intel", Vendor::Intel));
    // The loader belongs to no card in particular, so it is listed in the Overview's libraries
    // check rather than under a card.
    assert!(!requirement_belongs_to("vulkan-icd-loader", Vendor::Nvidia));
    assert!(!requirement_belongs_to("vulkan-icd-loader", Vendor::Amd));
}

#[test]
fn every_page_name_has_a_builder() {
    for page in pages() {
        assert!(
            matches!(
                page.name,
                "overview" | "graphics" | "performance" | "games" | "capture" | "sharing"
            ),
            "{} has no builder",
            page.name
        );
    }
}

#[test]
fn a_page_is_found_by_its_name() {
    let all = pages();
    assert_eq!(all.len(), 6);
    for (i, p) in all.iter().enumerate() {
        assert_eq!(page_index(p.name), Some(i));
        assert_eq!(page(p.name).title, p.title);
    }
    assert_eq!(page_index("nowhere"), None);
    assert_eq!(page("nowhere").name, all[0].name);
}

#[test]
fn an_icon_the_theme_lacks_is_replaced() {
    let theme = NameSet::of(&vec!["applications-games-symbolic".to_string()]);
    assert_eq!(
        icon_name("applications-games-symbolic", Some(&theme)),
        "applications-games-symbolic"
    );
    // Nothing suitable: the last resort.
    assert_eq!(
        icon_name("no-such-icon-symbolic", Some(&NameSet::new())),
        "application-x-executable-symbolic"
    );
    // Where there is no theme to ask, the wanted one is used.
    assert_eq!(icon_name("no-such-icon-symbolic", None), "no-such-icon-symbolic");
    let fallbacks = icon_fallbacks("temperature-symbolic");
    if let Some(first) = fallbacks.first() {
        let theme = NameSet::of(&vec![first.to_string()]);
        assert_eq!(icon_name("temperature-symbolic", Some(&theme)), *first);
    }
}

#[test]
fn the_first_argument_decides_what_is_started() {
    assert_eq!(start(None), Start::Window);
    assert_eq!(start(Some("--apply")), Start::Apply);
    assert_eq!(start(Some("--help")), Start::Help);
    assert_eq!(start(Some("-h")), Start::Help);
    assert_eq!(start(Some("--other")), Start::Window);
}
