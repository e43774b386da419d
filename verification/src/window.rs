//! The window: its pages, its icons, and what the command line asks for.
use vstd::prelude::*;
use crate::checks::str_texts;
use crate::collections::NameSet;
use crate::lists::{first_where, lemma_first_is, lemma_first_none};
use crate::text::equal;

verus! {

/// One section of the window.
#[derive(Debug, Clone, Copy, PartialEq, Eq)]
pub struct Page {
    pub name: &'static str,
    pub icon: &'static str,
    pub label: &'static str,
    pub title: &'static str,
    pub lede: &'static str,
    /// The contextual line in the rail's tip card.
    pub tip: &'static str,
}

/// What is said of a section.
#[verifier::ext_equal]
pub struct PageModel {
    pub name: Seq<char>,
    pub icon: Seq<char>,
    pub label: Seq<char>,
    pub title: Seq<char>,
    pub lede: Seq<char>,
    pub tip: Seq<char>,
}

impl DeepView for Page {
    type V = PageModel;

    open spec fn deep_view(&self) -> PageModel {
        page_of(self.name@, self.icon@, self.label@, self.title@, self.lede@, self.tip@)
    }
}

/// A section, from what is said of it.
pub open spec fn page_of(
    name: Seq<char>,
    icon: Seq<char>,
    label: Seq<char>,
    title: Seq<char>,
    lede: Seq<char>,
    tip: Seq<char>,
) -> PageModel {
    PageModel { name, icon, label, title, lede, tip }
}

/// The sections, in the order of the sidebar.
pub open spec fn page_list() -> Seq<PageModel> {
    seq![
        page_of(
            "overview"@,
            "input-gaming-symbolic"@,
            "Gaming"@,
            "Gaming"@,
            "Set it up once. Then just play."@,
            "Anything with a Fix button can be sorted out without leaving this window."@,
        ),
        page_of(
            "graphics"@,
            "video-display-symbolic"@,
            "Graphics"@,
            "Graphics drivers"@,
            "Your cards, the drivers on them, and the modules for every kernel."@,
            "A driver built with DKMS is compiled per kernel. Build for a new one before you boot it, not after."@,
        ),
        page_of(
            "performance"@,
            "power-profile-performance-symbolic"@,
            "Performance"@,
            "Performance"@,
            "How hard the machine may work, and the settings games depend on."@,
            "The memory-mapping limit is the one that stops a big game dead. Everything else here costs smoothness, not startup."@,
        ),
        page_of(
            "games"@,
            "applications-games-symbolic"@,
            "Library"@,
            "Library"@,
            "What is installed, and how each one should be started."@,
            "On a laptop with two cards, a game with no launch options runs on the slow one. Paste the line at the top into Steam."@,
        ),
        page_of(
            "capture"@,
            "media-record-symbolic"@,
            "Capture"@,
            "Capture"@,
            "Recording gameplay, and turning a recording into a video."@,
            "Super+Print starts and stops a recording. The compositor draws it, so a busy game cannot make it drop frames."@,
        ),
        page_of(
            "sharing"@,
            "network-transmit-receive-symbolic"@,
            "Screen sharing"@,
            "Screen sharing"@,
            "What a screen share needs, and what this desktop can do today."@,
            "Sharing into a call needs capture support in the compositor. Recording does not, and works now."@,
        ),
    ]
}

/// The sections, in the order of the sidebar.
pub fn pages() -> (r: Vec<Page>)
    ensures
        r.deep_view() == page_list(),
        r.len() == 6,
{
    let list = vec![
        Page {
            name: "overview",
            icon: "input-gaming-symbolic",
            label: "Gaming",
            title: "Gaming",
            lede: "Set it up once. Then just play.",
            tip: "Anything with a Fix button can be sorted out without leaving this window.",
        },
        Page {
            name: "graphics",
            icon: "video-display-symbolic",
            label: "Graphics",
            title: "Graphics drivers",
            lede: "Your cards, the drivers on them, and the modules for every kernel.",
            tip: "A driver built with DKMS is compiled per kernel. Build for a new one before you boot it, not after.",
        },
        Page {
            name: "performance",
            icon: "power-profile-performance-symbolic",
            label: "Performance",
            title: "Performance",
            lede: "How hard the machine may work, and the settings games depend on.",
            tip: "The memory-mapping limit is the one that stops a big game dead. Everything else here costs smoothness, not startup.",
        },
        Page {
            name: "games",
            icon: "applications-games-symbolic",
            label: "Library",
            title: "Library",
            lede: "What is installed, and how each one should be started.",
            tip: "On a laptop with two cards, a game with no launch options runs on the slow one. Paste the line at the top into Steam.",
        },
        Page {
            name: "capture",
            icon: "media-record-symbolic",
            label: "Capture",
            title: "Capture",
            lede: "Recording gameplay, and turning a recording into a video.",
            tip: "Super+Print starts and stops a recording. The compositor draws it, so a busy game cannot make it drop frames.",
        },
        Page {
            name: "sharing",
            icon: "network-transmit-receive-symbolic",
            label: "Screen sharing",
            title: "Screen sharing",
            lede: "What a screen share needs, and what this desktop can do today.",
            tip: "Sharing into a call needs capture support in the compositor. Recording does not, and works now.",
        },
    ];
    assert(list.deep_view() =~= page_list());
    list
}

/// The section of a name; the first one where there is none.
pub open spec fn page_named(name: Seq<char>) -> PageModel {
    match first_where(page_list(), |p: PageModel| p.name == name) {
        Some(p) => p,
        None => page_list()[0],
    }
}

/// Where the section of a name stands in the sidebar.
pub fn page_index(name: &str) -> (r: Option<usize>)
    ensures
        match r {
            Some(i) => i < page_list().len() && page_list()[i as int].name == name@ && forall|
                j: int,
            |
                0 <= j < i ==> (#[trigger] page_list()[j]).name != name@,
            None => forall|j: int|
                0 <= j < page_list().len() ==> (#[trigger] page_list()[j]).name != name@,
        },
{
    let all = pages();
    let mut i: usize = 0;
    while i < all.len()
        invariant
            i <= all.len(),
            all.deep_view() == page_list(),
            forall|j: int| 0 <= j < i ==> (#[trigger] page_list()[j]).name != name@,
        decreases all.len() - i,
    {
        assert(page_list()[i as int] == all@[i as int].deep_view());
        if equal(all[i].name, name) {
            return Some(i);
        }
        i = i + 1;
    }
    None
}

/// The section of a name; the first one where there is none.
pub fn page(name: &str) -> (r: Page)
    ensures
        r.deep_view() == page_named(name@),
{
    let all = pages();
    let ghost p = |p: PageModel| p.name == name@;
    match page_index(name) {
        Some(i) => {
            proof {
                lemma_first_is(page_list(), p, i as int);
                assert(page_list()[i as int] == all@[i as int].deep_view());
            }
            all[i]
        },
        None => {
            proof {
                lemma_first_none(page_list(), p);
                assert(page_list()[0] == all@[0].deep_view());
            }
            all[0]
        },
    }
}

// ---------------------------------------------------------------------------
// Icons
// ---------------------------------------------------------------------------

/// What is used instead of an icon that a theme does not carry.
pub open spec fn alternatives(wanted: Seq<char>) -> Seq<Seq<char>> {
    if wanted == "emblem-ok-symbolic"@ {
        seq!["object-select-symbolic"@, "checkbox-checked-symbolic"@]
    } else if wanted == "temperature-symbolic"@ {
        seq!["weather-clear-symbolic"@, "display-brightness-symbolic"@]
    } else if wanted == "utilities-system-monitor-symbolic"@ {
        seq!["power-profile-performance-symbolic"@, "system-run-symbolic"@]
    } else if wanted == "steam"@ {
        seq!["applications-games-symbolic"@]
    } else if wanted == "net.lutris.Lutris"@ {
        seq!["lutris"@, "applications-games-symbolic"@]
    } else if wanted == "com.heroicgameslauncher.hgl"@ {
        seq!["heroic"@, "applications-games-symbolic"@]
    } else if wanted == "raven-logo"@ {
        seq!["input-gaming-symbolic"@]
    } else {
        Seq::empty()
    }
}

/// What is used instead of an icon that a theme does not carry, in order. An icon a theme does not
/// carry renders as a grey box, and a window full of grey boxes looks broken rather than unthemed.
pub fn icon_fallbacks(wanted: &str) -> (r: Vec<&'static str>)
    ensures
        str_texts(r@) == alternatives(wanted@),
{
    let names: Vec<&'static str> = if equal(wanted, "emblem-ok-symbolic") {
        vec!["object-select-symbolic", "checkbox-checked-symbolic"]
    } else if equal(wanted, "temperature-symbolic") {
        vec!["weather-clear-symbolic", "display-brightness-symbolic"]
    } else if equal(wanted, "utilities-system-monitor-symbolic") {
        vec!["power-profile-performance-symbolic", "system-run-symbolic"]
    } else if equal(wanted, "steam") {
        vec!["applications-games-symbolic"]
    } else if equal(wanted, "net.lutris.Lutris") {
        vec!["lutris", "applications-games-symbolic"]
    } else if equal(wanted, "com.heroicgameslauncher.hgl") {
        vec!["heroic", "applications-games-symbolic"]
    } else if equal(wanted, "raven-logo") {
        vec!["input-gaming-symbolic"]
    } else {
        Vec::new()
    };
    assert(str_texts(names@) =~= alternatives(wanted@));
    names
}

/// The icon that stands for a wanted one: itself where the theme has it, else the first alternative
/// that the theme has, else one that every theme has.
pub open spec fn icon_for(wanted: Seq<char>, theme: Set<Seq<char>>) -> Seq<char> {
    if theme.contains(wanted) {
        wanted
    } else {
        match first_where(alternatives(wanted), |name: Seq<char>| theme.contains(name)) {
            Some(name) => name,
            None => "application-x-executable-symbolic"@,
        }
    }
}

/// The icon that stands for a wanted one, in a theme with these icons; without a theme the wanted
/// one.
pub fn icon_name(wanted: &str, theme: Option<&NameSet>) -> (r: String)
    ensures
        r@ == (match theme {
            Some(icons) => icon_for(wanted@, icons@),
            None => wanted@,
        }),
{
    match theme {
        None => String::from_str(wanted),
        Some(icons) => {
            if icons.contains(wanted) {
                return String::from_str(wanted);
            }
            let names = icon_fallbacks(wanted);
            let ghost every = str_texts(names@);
            let ghost held = icons@;
            let ghost p = |name: Seq<char>| held.contains(name);
            let mut i: usize = 0;
            while i < names.len()
                invariant
                    i <= names.len(),
                    theme == Some(icons),
                    held == icons@,
                    !held.contains(wanted@),
                    every == str_texts(names@),
                    every == alternatives(wanted@),
                    p == (|name: Seq<char>| held.contains(name)),
                    forall|j: int| 0 <= j < i ==> !p(#[trigger] every[j]),
                decreases names.len() - i,
            {
                assert(every[i as int] == names@[i as int]@);
                if icons.contains(names[i]) {
                    proof {
                        lemma_first_is(every, p, i as int);
                    }
                    return String::from_str(names[i]);
                }
                i = i + 1;
            }
            proof {
                lemma_first_none(every, p);
            }
            String::from_str("application-x-executable-symbolic")
        },
    }
}

// ---------------------------------------------------------------------------
// The command line
// ---------------------------------------------------------------------------

/// What the command line asks for.
#[derive(Debug, Clone, Copy, PartialEq, Eq, Structural)]
pub enum Start {
    /// The privileged half: one action from a fixed list, in the arguments that follow.
    Apply,
    Help,
    Window,
}

/// What the first argument after the program's name asks for.
pub open spec fn start_of(first: Option<Seq<char>>) -> Start {
    match first {
        Some(arg) => if arg == "--apply"@ {
            Start::Apply
        } else if arg == "--help"@ || arg == "-h"@ {
            Start::Help
        } else {
            Start::Window
        },
        None => Start::Window,
    }
}

/// What the first argument after the program's name asks for.
pub fn start(first: Option<&str>) -> (r: Start)
    ensures
        r == start_of(first.deep_view()),
{
    match first {
        Some(arg) => if equal(arg, "--apply") {
            Start::Apply
        } else if equal(arg, "--help") || equal(arg, "-h") {
            Start::Help
        } else {
            Start::Window
        },
        None => Start::Window,
    }
}

// ---------------------------------------------------------------------------
// Laws
// ---------------------------------------------------------------------------

/// No icon is ever a box: what stands for one is in the theme, or is the one that every theme has.
pub proof fn no_icon_is_a_box(wanted: Seq<char>, theme: Set<Seq<char>>)
    ensures
        theme.contains(icon_for(wanted, theme)) || icon_for(wanted, theme)
            == "application-x-executable-symbolic"@,
{
    let p = |name: Seq<char>| theme.contains(name);
    crate::lists::lemma_first_index(alternatives(wanted), p);
}

/// Every section is found by its own name, and an unknown name is taken to the first one.
pub proof fn sections_are_found_by_their_names(name: Seq<char>)
    ensures
        page_named("overview"@).title == "Gaming"@,
        page_named("graphics"@).title == "Graphics drivers"@,
        page_named("performance"@).title == "Performance"@,
        page_named("games"@).title == "Library"@,
        page_named("capture"@).title == "Capture"@,
        page_named("sharing"@).title == "Screen sharing"@,
        name != "overview"@ && name != "graphics"@ && name != "performance"@ && name != "games"@ && name
            != "capture"@ && name != "sharing"@ ==> page_named(name).name == "overview"@,
{
    reveal_strlit("overview");
    reveal_strlit("graphics");
    reveal_strlit("performance");
    reveal_strlit("games");
    reveal_strlit("capture");
    reveal_strlit("sharing");
    assert("overview"@[0] == 'o' && "graphics"@[1] == 'r' && "performance"@[0] == 'p' && "games"@[1]
        == 'a' && "capture"@[0] == 'c' && "sharing"@[0] == 's' && "graphics"@[0] == 'g' && "games"@[0]
        == 'g');
    let pages = page_list();
    crate::lists::lemma_first_is(pages, |p: PageModel| p.name == "overview"@, 0);
    crate::lists::lemma_first_is(pages, |p: PageModel| p.name == "graphics"@, 1);
    crate::lists::lemma_first_is(pages, |p: PageModel| p.name == "performance"@, 2);
    crate::lists::lemma_first_is(pages, |p: PageModel| p.name == "games"@, 3);
    crate::lists::lemma_first_is(pages, |p: PageModel| p.name == "capture"@, 4);
    crate::lists::lemma_first_is(pages, |p: PageModel| p.name == "sharing"@, 5);
    if name != "overview"@ && name != "graphics"@ && name != "performance"@ && name != "games"@ && name
        != "capture"@ && name != "sharing"@ {
        crate::lists::lemma_first_none(pages, |p: PageModel| p.name == name);
    }
}

/// An icon that the theme has is used itself; without it and without a stand-in, the one that every theme
/// has.
pub proof fn an_icon_of_the_theme_is_used_itself(wanted: Seq<char>, theme: Set<Seq<char>>)
    ensures
        theme.contains(wanted) ==> icon_for(wanted, theme) == wanted,
        !theme.contains(wanted) && (forall|i: int|
            0 <= i < alternatives(wanted).len() ==> !theme.contains(#[trigger] alternatives(wanted)[i]))
            ==> icon_for(wanted, theme) == "application-x-executable-symbolic"@,
        !theme.contains("steam"@) && theme.contains("applications-games-symbolic"@) ==> icon_for(
            "steam"@,
            theme,
        ) == "applications-games-symbolic"@,
        !theme.contains("raven-logo"@) && theme.contains("input-gaming-symbolic"@) ==> icon_for(
            "raven-logo"@,
            theme,
        ) == "input-gaming-symbolic"@,
        !theme.contains("emblem-ok-symbolic"@) && theme.contains("object-select-symbolic"@) ==> icon_for(
            "emblem-ok-symbolic"@,
            theme,
        ) == "object-select-symbolic"@,
        !theme.contains("temperature-symbolic"@) && theme.contains("weather-clear-symbolic"@)
            ==> icon_for("temperature-symbolic"@, theme) == "weather-clear-symbolic"@,
        !theme.contains("utilities-system-monitor-symbolic"@) && theme.contains(
            "power-profile-performance-symbolic"@,
        ) ==> icon_for("utilities-system-monitor-symbolic"@, theme)
            == "power-profile-performance-symbolic"@,
        !theme.contains("net.lutris.Lutris"@) && theme.contains("lutris"@) ==> icon_for(
            "net.lutris.Lutris"@,
            theme,
        ) == "lutris"@,
        !theme.contains("com.heroicgameslauncher.hgl"@) && theme.contains("heroic"@) ==> icon_for(
            "com.heroicgameslauncher.hgl"@,
            theme,
        ) == "heroic"@,
{
    let p = |name: Seq<char>| theme.contains(name);
    reveal_strlit("emblem-ok-symbolic");
    reveal_strlit("temperature-symbolic");
    reveal_strlit("utilities-system-monitor-symbolic");
    reveal_strlit("steam");
    reveal_strlit("net.lutris.Lutris");
    reveal_strlit("com.heroicgameslauncher.hgl");
    reveal_strlit("raven-logo");
    assert("emblem-ok-symbolic"@.len() == 18 && "temperature-symbolic"@.len() == 20
        && "utilities-system-monitor-symbolic"@.len() == 33 && "steam"@.len() == 5
        && "net.lutris.Lutris"@.len() == 17 && "com.heroicgameslauncher.hgl"@.len() == 27
        && "raven-logo"@.len() == 10);
    crate::lists::lemma_first_index(alternatives(wanted), p);
    crate::lists::lemma_first_index(alternatives("steam"@), p);
    crate::lists::lemma_first_index(alternatives("raven-logo"@), p);
    if theme.contains("applications-games-symbolic"@) {
        crate::lists::lemma_first_is(alternatives("steam"@), p, 0);
    }
    if theme.contains("input-gaming-symbolic"@) {
        crate::lists::lemma_first_is(alternatives("raven-logo"@), p, 0);
    }
    if theme.contains("object-select-symbolic"@) {
        crate::lists::lemma_first_is(alternatives("emblem-ok-symbolic"@), p, 0);
    }
    if theme.contains("weather-clear-symbolic"@) {
        crate::lists::lemma_first_is(alternatives("temperature-symbolic"@), p, 0);
    }
    if theme.contains("power-profile-performance-symbolic"@) {
        crate::lists::lemma_first_is(alternatives("utilities-system-monitor-symbolic"@), p, 0);
    }
    if theme.contains("lutris"@) {
        crate::lists::lemma_first_is(alternatives("net.lutris.Lutris"@), p, 0);
    }
    if theme.contains("heroic"@) {
        crate::lists::lemma_first_is(alternatives("com.heroicgameslauncher.hgl"@), p, 0);
    }
}

/// Only `--apply` asks for the privileged half, only `--help` and `-h` for help, and everything else for
/// the window.
pub proof fn only_apply_runs_the_privileged_half(arg: Seq<char>)
    ensures
        start_of(Some(arg)) is Apply <==> arg == "--apply"@,
        start_of(Some(arg)) is Help <==> arg == "--help"@ || arg == "-h"@,
        start_of(None) is Window,
{
    reveal_strlit("--apply");
    reveal_strlit("--help");
    reveal_strlit("-h");
    assert("--apply"@.len() == 7 && "--help"@.len() == 6 && "-h"@.len() == 2);
}

} // verus!
