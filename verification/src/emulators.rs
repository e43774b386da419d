//! Emulators: what runs what, which are installed, and what they need from the system.
//!
//! This is a fixed table. It names the emulators that are the usual answer for each console, says
//! what each one runs, and says plainly where a BIOS image is required. Nothing here downloads a BIOS
//! or a game.
use vstd::prelude::*;
use crate::checks::{has_vendor, owns_vendor};
use crate::collections::NameSet;
use crate::gpu::{Gpu, GpuModel, IcdModel, VulkanIcd};
use crate::lists::{lemma_filter_count, lemma_filter_members, lemma_filter_step};
use crate::number::{decimal, decimal_of};
use crate::text::cat2;

verus! {

#[derive(Debug, Clone, Copy, PartialEq, Eq, PartialOrd, Ord, Structural)]
pub enum Family {
    Nintendo,
    Sony,
    Sega,
    Microsoft,
    Computer,
    Multi,
}

impl Family {
    pub fn title(self) -> (r: &'static str)
        ensures
            r@ == (match self {
                Family::Nintendo => "Nintendo"@,
                Family::Sony => "PlayStation"@,
                Family::Sega => "Sega"@,
                Family::Microsoft => "Xbox"@,
                Family::Computer => "Computers and DOS"@,
                Family::Multi => "Everything at once"@,
            }),
    {
        match self {
            Family::Nintendo => "Nintendo",
            Family::Sony => "PlayStation",
            Family::Sega => "Sega",
            Family::Microsoft => "Xbox",
            Family::Computer => "Computers and DOS",
            Family::Multi => "Everything at once",
        }
    }

    /// The tint of the icon tile, so that the shelves read apart at a glance.
    pub fn tint(self) -> (r: &'static str)
        ensures
            r@ == (match self {
                Family::Nintendo => "red"@,
                Family::Sony => "blue"@,
                Family::Sega => "indigo"@,
                Family::Microsoft => "green"@,
                Family::Computer => "orange"@,
                Family::Multi => "purple"@,
            }),
    {
        match self {
            Family::Nintendo => "red",
            Family::Sony => "blue",
            Family::Sega => "indigo",
            Family::Microsoft => "green",
            Family::Computer => "orange",
            Family::Multi => "purple",
        }
    }
}

/// The shelves, in the order they are shown in.
pub const FAMILIES: [Family; 6] = [
    Family::Multi,
    Family::Nintendo,
    Family::Sony,
    Family::Sega,
    Family::Microsoft,
    Family::Computer,
];

#[derive(Debug, Clone, Copy)]
pub struct Emulator {
    pub name: &'static str,
    /// What to install it with.
    pub package: &'static str,
    /// What to run, when it is not the package name.
    pub binary: &'static str,
    pub family: Family,
    /// The machines it emulates.
    pub systems: &'static str,
    /// Anything that stops it working out of the box.
    pub caveat: Option<&'static str>,
}

/// What is said of an emulator.
#[verifier::ext_equal]
pub struct EmulatorModel {
    pub name: Seq<char>,
    pub package: Seq<char>,
    pub binary: Seq<char>,
    pub family: Family,
    pub systems: Seq<char>,
    pub caveat: Option<Seq<char>>,
}

/// An emulator, from what is said of it.
pub open spec fn emulator_of(
    name: Seq<char>,
    package: Seq<char>,
    binary: Seq<char>,
    family: Family,
    systems: Seq<char>,
    caveat: Option<Seq<char>>,
) -> EmulatorModel {
    EmulatorModel { name, package, binary, family, systems, caveat }
}

impl DeepView for Emulator {
    type V = EmulatorModel;

    open spec fn deep_view(&self) -> EmulatorModel {
        emulator_of(
            self.name@,
            self.package@,
            self.binary@,
            self.family,
            self.systems@,
            match self.caveat {
                Some(text) => Some(text@),
                None => None,
            },
        )
    }
}

impl Emulator {
    /// Whether its program is among the commands that are installed.
    pub fn is_installed(&self, commands: &NameSet) -> (r: bool)
        ensures
            r == commands@.contains(self.binary@),
    {
        commands.contains(self.binary)
    }
}

/// The usual answer for each console.
pub open spec fn emulator_list() -> Seq<EmulatorModel> {
    seq![
        emulator_of(
            "RetroArch"@,
            "retroarch"@,
            "retroarch"@,
            Family::Multi,
            "Almost everything up to the sixth generation, through downloadable cores"@,
            Some("Install cores from inside RetroArch before it can run anything — it ships with none."@),
        ),
        emulator_of(
            "Ares"@,
            "ares"@,
            "ares"@,
            Family::Multi,
            "Nintendo, Sega and NEC consoles, with accuracy as the priority"@,
            None,
        ),
        emulator_of(
            "Dolphin"@,
            "dolphin-emu"@,
            "dolphin-emu"@,
            Family::Nintendo,
            "GameCube and Wii"@,
            None,
        ),
        emulator_of(
            "melonDS"@,
            "melonds"@,
            "melonDS"@,
            Family::Nintendo,
            "Nintendo DS"@,
            Some("Needs the DS BIOS and firmware dumped from a console you own."@),
        ),
        emulator_of(
            "mGBA"@,
            "mgba-qt"@,
            "mgba-qt"@,
            Family::Nintendo,
            "Game Boy, Game Boy Color and Game Boy Advance"@,
            None,
        ),
        emulator_of(
            "Snes9x"@,
            "snes9x-gtk"@,
            "snes9x-gtk"@,
            Family::Nintendo,
            "Super Nintendo"@,
            None,
        ),
        emulator_of(
            "Mupen64Plus"@,
            "mupen64plus"@,
            "mupen64plus"@,
            Family::Nintendo,
            "Nintendo 64"@,
            None,
        ),
        emulator_of(
            "Ryujinx"@,
            "ryujinx"@,
            "Ryujinx"@,
            Family::Nintendo,
            "Nintendo Switch"@,
            Some("Needs keys and firmware dumped from a console you own."@),
        ),
        emulator_of(
            "DuckStation"@,
            "duckstation"@,
            "duckstation-qt"@,
            Family::Sony,
            "PlayStation 1"@,
            Some("Needs a PS1 BIOS image dumped from a console you own."@),
        ),
        emulator_of(
            "PCSX2"@,
            "pcsx2"@,
            "pcsx2-qt"@,
            Family::Sony,
            "PlayStation 2"@,
            Some("Needs a PS2 BIOS image dumped from a console you own."@),
        ),
        emulator_of(
            "RPCS3"@,
            "rpcs3"@,
            "rpcs3"@,
            Family::Sony,
            "PlayStation 3"@,
            Some("Needs the PS3 firmware, which Sony publishes, installed from inside RPCS3."@),
        ),
        emulator_of(
            "PPSSPP"@,
            "ppsspp"@,
            "PPSSPPSDL"@,
            Family::Sony,
            "PlayStation Portable"@,
            None,
        ),
        emulator_of(
            "Flycast"@,
            "flycast"@,
            "flycast"@,
            Family::Sega,
            "Dreamcast, Naomi and Atomiswave"@,
            Some("Needs the Dreamcast BIOS for some games."@),
        ),
        emulator_of(
            "xemu"@,
            "xemu"@,
            "xemu"@,
            Family::Microsoft,
            "Original Xbox"@,
            Some("Needs a BIOS and a hard disk image from a console you own."@),
        ),
        emulator_of(
            "ScummVM"@,
            "scummvm"@,
            "scummvm"@,
            Family::Computer,
            "Point-and-click adventures, from LucasArts to Sierra"@,
            None,
        ),
        emulator_of(
            "DOSBox Staging"@,
            "dosbox-staging"@,
            "dosbox"@,
            Family::Computer,
            "MS-DOS games"@,
            None,
        ),
    ]
}

/// The catalogue, grouped by family in the order the page lists them.
pub fn catalogue() -> (r: Vec<Emulator>)
    ensures
        r.deep_view() == emulator_list(),
{
    let emulators = vec![
        Emulator {
            name: "RetroArch",
            package: "retroarch",
            binary: "retroarch",
            family: Family::Multi,
            systems: "Almost everything up to the sixth generation, through downloadable cores",
            caveat: Some("Install cores from inside RetroArch before it can run anything — it ships with none."),
        },
        Emulator {
            name: "Ares",
            package: "ares",
            binary: "ares",
            family: Family::Multi,
            systems: "Nintendo, Sega and NEC consoles, with accuracy as the priority",
            caveat: None,
        },
        Emulator {
            name: "Dolphin",
            package: "dolphin-emu",
            binary: "dolphin-emu",
            family: Family::Nintendo,
            systems: "GameCube and Wii",
            caveat: None,
        },
        Emulator {
            name: "melonDS",
            package: "melonds",
            binary: "melonDS",
            family: Family::Nintendo,
            systems: "Nintendo DS",
            caveat: Some("Needs the DS BIOS and firmware dumped from a console you own."),
        },
        Emulator {
            name: "mGBA",
            package: "mgba-qt",
            binary: "mgba-qt",
            family: Family::Nintendo,
            systems: "Game Boy, Game Boy Color and Game Boy Advance",
            caveat: None,
        },
        Emulator {
            name: "Snes9x",
            package: "snes9x-gtk",
            binary: "snes9x-gtk",
            family: Family::Nintendo,
            systems: "Super Nintendo",
            caveat: None,
        },
        Emulator {
            name: "Mupen64Plus",
            package: "mupen64plus",
            binary: "mupen64plus",
            family: Family::Nintendo,
            systems: "Nintendo 64",
            caveat: None,
        },
        Emulator {
            name: "Ryujinx",
            package: "ryujinx",
            binary: "Ryujinx",
            family: Family::Nintendo,
            systems: "Nintendo Switch",
            caveat: Some("Needs keys and firmware dumped from a console you own."),
        },
        Emulator {
            name: "DuckStation",
            package: "duckstation",
            binary: "duckstation-qt",
            family: Family::Sony,
            systems: "PlayStation 1",
            caveat: Some("Needs a PS1 BIOS image dumped from a console you own."),
        },
        Emulator {
            name: "PCSX2",
            package: "pcsx2",
            binary: "pcsx2-qt",
            family: Family::Sony,
            systems: "PlayStation 2",
            caveat: Some("Needs a PS2 BIOS image dumped from a console you own."),
        },
        Emulator {
            name: "RPCS3",
            package: "rpcs3",
            binary: "rpcs3",
            family: Family::Sony,
            systems: "PlayStation 3",
            caveat: Some("Needs the PS3 firmware, which Sony publishes, installed from inside RPCS3."),
        },
        Emulator {
            name: "PPSSPP",
            package: "ppsspp",
            binary: "PPSSPPSDL",
            family: Family::Sony,
            systems: "PlayStation Portable",
            caveat: None,
        },
        Emulator {
            name: "Flycast",
            package: "flycast",
            binary: "flycast",
            family: Family::Sega,
            systems: "Dreamcast, Naomi and Atomiswave",
            caveat: Some("Needs the Dreamcast BIOS for some games."),
        },
        Emulator {
            name: "xemu",
            package: "xemu",
            binary: "xemu",
            family: Family::Microsoft,
            systems: "Original Xbox",
            caveat: Some("Needs a BIOS and a hard disk image from a console you own."),
        },
        Emulator {
            name: "ScummVM",
            package: "scummvm",
            binary: "scummvm",
            family: Family::Computer,
            systems: "Point-and-click adventures, from LucasArts to Sierra",
            caveat: None,
        },
        Emulator {
            name: "DOSBox Staging",
            package: "dosbox-staging",
            binary: "dosbox",
            family: Family::Computer,
            systems: "MS-DOS games",
            caveat: None,
        },
    ];
    assert(emulators.deep_view() =~= emulator_list());
    emulators
}

/// The emulators that are installed.
pub fn installed(commands: &NameSet) -> (r: Vec<Emulator>)
    ensures
        r.deep_view() == emulator_list().filter(
            |e: EmulatorModel| commands@.contains(e.binary),
        ),
{
    let all = catalogue();
    let ghost every = all.deep_view();
    let ghost p = |e: EmulatorModel| commands@.contains(e.binary);
    let mut out: Vec<Emulator> = Vec::new();
    let mut i: usize = 0;
    proof {
        reveal(Seq::filter);
        assert(out.deep_view() =~= every.take(0).filter(p));
    }
    while i < all.len()
        invariant
            i <= all.len(),
            every == all.deep_view(),
            p == (|e: EmulatorModel| commands@.contains(e.binary)),
            out.deep_view() == every.take(i as int).filter(p),
        decreases all.len() - i,
    {
        proof {
            lemma_filter_step(every, i as int, p);
            assert(every[i as int] == all@[i as int].deep_view());
        }
        let ghost before = out.deep_view();
        if all[i].is_installed(commands) {
            out.push(all[i]);
            assert(out.deep_view() =~= before.push(every[i as int]));
        }
        i = i + 1;
    }
    assert(every.take(i as int) =~= every);
    out
}

/// The emulators of a family.
pub open spec fn shelf(emulators: Seq<EmulatorModel>, family: Family) -> Seq<EmulatorModel> {
    emulators.filter(|e: EmulatorModel| e.family == family)
}

/// The emulators on a shelf.
pub fn by_family(family: Family) -> (r: Vec<Emulator>)
    ensures
        r.deep_view() == shelf(emulator_list(), family),
{
    let all = catalogue();
    let ghost every = all.deep_view();
    let ghost p = |e: EmulatorModel| e.family == family;
    let mut out: Vec<Emulator> = Vec::new();
    let mut i: usize = 0;
    proof {
        reveal(Seq::filter);
        assert(out.deep_view() =~= every.take(0).filter(p));
    }
    while i < all.len()
        invariant
            i <= all.len(),
            every == all.deep_view(),
            p == (|e: EmulatorModel| e.family == family),
            out.deep_view() == every.take(i as int).filter(p),
        decreases all.len() - i,
    {
        proof {
            lemma_filter_step(every, i as int, p);
            assert(every[i as int] == all@[i as int].deep_view());
        }
        let ghost before = out.deep_view();
        if all[i].family == family {
            out.push(all[i]);
            assert(out.deep_view() =~= before.push(every[i as int]));
        }
        i = i + 1;
    }
    assert(every.take(i as int) =~= every);
    out
}

/// What an emulator needs from the machine, over and above being installed. The page says which one
/// is missing and points at the page that fixes it, rather than duplicating the fix.
#[derive(Debug, Clone, PartialEq, Eq)]
pub struct Prerequisite {
    pub title: &'static str,
    pub detail: String,
    pub met: bool,
    /// The page that deals with it.
    pub page: &'static str,
}

/// What is said of a prerequisite.
#[verifier::ext_equal]
pub struct PrerequisiteModel {
    pub title: Seq<char>,
    pub detail: Seq<char>,
    pub met: bool,
    pub page: Seq<char>,
}

impl DeepView for Prerequisite {
    type V = PrerequisiteModel;

    open spec fn deep_view(&self) -> PrerequisiteModel {
        PrerequisiteModel {
            title: self.title@,
            detail: self.detail@,
            met: self.met,
            page: self.page@,
        }
    }
}

/// A Vulkan driver is there for one of some cards.
pub open spec fn has_vulkan(icds: Seq<IcdModel>, gpus: Seq<GpuModel>) -> bool {
    exists|i: int|
        0 <= i < icds.len() && (#[trigger] icds[i]).library_present && has_vendor(
            gpus,
            icds[i].vendor,
        )
}

fn finds_vulkan(icds: &Vec<VulkanIcd>, gpus: &Vec<Gpu>) -> (r: bool)
    ensures
        r == has_vulkan(icds.deep_view(), gpus.deep_view()),
{
    let mut i: usize = 0;
    while i < icds.len()
        invariant
            i <= icds.len(),
            forall|j: int|
                0 <= j < i ==> !((#[trigger] icds.deep_view()[j]).library_present && has_vendor(
                    gpus.deep_view(),
                    icds.deep_view()[j].vendor,
                )),
        decreases icds.len() - i,
    {
        assert(icds.deep_view()[i as int] == icds@[i as int].deep_view());
        if icds[i].library_present && owns_vendor(gpus, icds[i].vendor) {
            return true;
        }
        i = i + 1;
    }
    false
}

/// What the machine brings, of what emulators need: a Vulkan driver, a controller, and the 32-bit
/// libraries.
pub open spec fn needs(vulkan: bool, has_32bit_stack: bool, controllers: int) -> Seq<
    PrerequisiteModel,
> {
    seq![
        PrerequisiteModel {
            title: "A Vulkan driver"@,
            detail: if vulkan {
                "The newer emulators render through Vulkan, and a driver for this machine's graphics is installed."@
            } else {
                "The newer emulators — PCSX2, RPCS3, Dolphin, DuckStation — render through Vulkan and will not start without a driver for it."@
            },
            met: vulkan,
            page: "graphics"@,
        },
        PrerequisiteModel {
            title: "A controller"@,
            detail: if controllers == 0 {
                "Nothing is plugged in. Console games were made for a pad, and most emulators need one mapped before they will accept any input at all."@
            } else if controllers == 1 {
                "One controller is connected."@
            } else {
                decimal(controllers) + " controllers are connected."@
            },
            met: controllers > 0,
            page: "controllers"@,
        },
        PrerequisiteModel {
            title: "32-bit libraries"@,
            detail: if has_32bit_stack {
                "In place, which the older emulators and their cores are built against."@
            } else {
                "Missing. Several older emulators, and a number of RetroArch cores, are 32-bit builds."@
            },
            met: has_32bit_stack,
            page: "graphics"@,
        },
    ]
}

/// What an emulator needs from the machine, and whether it is there: the three that account for most
/// "it installed and then did nothing" reports.
pub fn prerequisites(
    gpus: &Vec<Gpu>,
    icds: &Vec<VulkanIcd>,
    has_32bit_stack: bool,
    controllers: usize,
) -> (r: Vec<Prerequisite>)
    ensures
        r.deep_view() == needs(
            has_vulkan(icds.deep_view(), gpus.deep_view()),
            has_32bit_stack,
            controllers as int,
        ),
{
    let vulkan: bool = finds_vulkan(icds, gpus);
    let mut list: Vec<Prerequisite> = Vec::new();
    list.push(
        Prerequisite {
            title: "A Vulkan driver",
            detail: String::from_str(
                if vulkan {
                    "The newer emulators render through Vulkan, and a driver for this machine's graphics is installed."
                } else {
                    "The newer emulators — PCSX2, RPCS3, Dolphin, DuckStation — render through Vulkan and will not start without a driver for it."
                },
            ),
            met: vulkan,
            page: "graphics",
        },
    );
    let pads: String = if controllers == 0 {
        String::from_str(
            "Nothing is plugged in. Console games were made for a pad, and most emulators need one mapped before they will accept any input at all.",
        )
    } else if controllers == 1 {
        String::from_str("One controller is connected.")
    } else {
        cat2(&decimal_of(controllers as u64), " controllers are connected.")
    };
    list.push(
        Prerequisite {
            title: "A controller",
            detail: pads,
            met: controllers > 0,
            page: "controllers",
        },
    );
    list.push(
        Prerequisite {
            title: "32-bit libraries",
            detail: String::from_str(
                if has_32bit_stack {
                    "In place, which the older emulators and their cores are built against."
                } else {
                    "Missing. Several older emulators, and a number of RetroArch cores, are 32-bit builds."
                },
            ),
            met: has_32bit_stack,
            page: "graphics",
        },
    );
    assert(list.deep_view() =~= needs(vulkan, has_32bit_stack, controllers as int));
    list
}

// ---------------------------------------------------------------------------
// Laws
// ---------------------------------------------------------------------------

/// What a name is told by: its length and its first two letters.
spec fn mark(name: Seq<char>) -> (nat, char, char) {
    (name.len(), name[0], name[1])
}

proof fn lemma_names_differ()
    ensures
        emulator_list().len() == 16,
        forall|i: int, j: int|
            0 <= i < j < 16 ==> (#[trigger] emulator_list()[i]).name != (
            #[trigger] emulator_list()[j]).name,
{
    reveal_strlit("RetroArch");
    reveal_strlit("Ares");
    reveal_strlit("Dolphin");
    reveal_strlit("melonDS");
    reveal_strlit("mGBA");
    reveal_strlit("Snes9x");
    reveal_strlit("Mupen64Plus");
    reveal_strlit("Ryujinx");
    reveal_strlit("DuckStation");
    reveal_strlit("PCSX2");
    reveal_strlit("RPCS3");
    reveal_strlit("PPSSPP");
    reveal_strlit("Flycast");
    reveal_strlit("xemu");
    reveal_strlit("ScummVM");
    reveal_strlit("DOSBox Staging");
    let all = emulator_list();
    assert(all.len() == 16);
    assert forall|i: int, j: int| 0 <= i < j < 16 implies (#[trigger] all[i]).name != (
    #[trigger] all[j]).name by {
        assert(mark(all[i].name) != mark(all[j].name));
    }
}

/// Every emulator of the catalogue stands on the shelf of its family, once, and on no other shelf.
pub proof fn every_emulator_is_shelved_once(i: int, family: Family)
    requires
        0 <= i < emulator_list().len(),
    ensures
        shelf(emulator_list(), family).to_multiset().count(emulator_list()[i]) == (if emulator_list()[i].family
            == family {
            1nat
        } else {
            0nat
        }),
{
    let all = emulator_list();
    lemma_names_differ();
    assert(all.no_duplicates());
    all.lemma_multiset_has_no_duplicates();
    all.to_multiset_ensures();
    assert(all.contains(all[i]));
    lemma_filter_count(all, |e: EmulatorModel| e.family == family, all[i]);
}

/// No shelf is empty, and every shelf is shown.
pub proof fn no_shelf_is_empty(family: Family)
    ensures
        shelf(emulator_list(), family).len() > 0,
        FAMILIES@.contains(family),
{
    let all = emulator_list();
    let p = |e: EmulatorModel| e.family == family;
    lemma_filter_members(all, p);
    match family {
        Family::Multi => {
            assert(p(all[0]) && all.contains(all[0]));
            assert(shelf(all, family).contains(all[0]));
            assert(FAMILIES@[0] == family);
        },
        Family::Nintendo => {
            assert(p(all[2]) && all.contains(all[2]));
            assert(shelf(all, family).contains(all[2]));
            assert(FAMILIES@[1] == family);
        },
        Family::Sony => {
            assert(p(all[8]) && all.contains(all[8]));
            assert(shelf(all, family).contains(all[8]));
            assert(FAMILIES@[2] == family);
        },
        Family::Sega => {
            assert(p(all[12]) && all.contains(all[12]));
            assert(shelf(all, family).contains(all[12]));
            assert(FAMILIES@[3] == family);
        },
        Family::Microsoft => {
            assert(p(all[13]) && all.contains(all[13]));
            assert(shelf(all, family).contains(all[13]));
            assert(FAMILIES@[4] == family);
        },
        Family::Computer => {
            assert(p(all[14]) && all.contains(all[14]));
            assert(shelf(all, family).contains(all[14]));
            assert(FAMILIES@[5] == family);
        },
    }
}

/// Nothing stands on a shelf that is not in the catalogue, and what stands there is of its family.
pub proof fn shelves_hold_the_catalogue(family: Family, e: EmulatorModel)
    ensures
        shelf(emulator_list(), family).contains(e) <==> emulator_list().contains(e) && e.family == family,
{
    lemma_filter_members(emulator_list(), |e: EmulatorModel| e.family == family);
}

/// Without cards and controllers nothing but the libraries can be met.
pub proof fn an_empty_machine_meets_nothing(icds: Seq<IcdModel>, has_32bit_stack: bool)
    ensures
        !needs(has_vulkan(icds, Seq::empty()), has_32bit_stack, 0)[0].met,
        !needs(has_vulkan(icds, Seq::empty()), has_32bit_stack, 0)[1].met,
{
}

proof fn lemma_same_emulator(i: int, k: int)
    requires
        0 <= i < emulator_list().len(),
        0 <= k < emulator_list().len(),
        emulator_list()[i].name == emulator_list()[k].name,
    ensures
        i == k,
{
    lemma_names_differ();
    if i < k {
        assert(emulator_list()[i].name != emulator_list()[k].name);
    } else if k < i {
        assert(emulator_list()[k].name != emulator_list()[i].name);
    }
}

/// Whatever entry of the catalogue an emulator is, it is installed by its package, told by its program, and
/// stands with the consoles that it is for; what it needs that cannot be installed is said where there is
/// anything.
pub proof fn emulators_come_from_their_packages(i: int)
    requires
        0 <= i < emulator_list().len(),
    ensures
        emulator_list()[i].name == "RetroArch"@ ==> emulator_list()[i].package == "retroarch"@
            && emulator_list()[i].binary == "retroarch"@ && emulator_list()[i].family == Family::Multi
            && emulator_list()[i].caveat is Some,
        emulator_list()[i].name == "Ares"@ ==> emulator_list()[i].package == "ares"@
            && emulator_list()[i].binary == "ares"@ && emulator_list()[i].family == Family::Multi
            && emulator_list()[i].caveat is None,
        emulator_list()[i].name == "Dolphin"@ ==> emulator_list()[i].package == "dolphin-emu"@
            && emulator_list()[i].binary == "dolphin-emu"@ && emulator_list()[i].family == Family::Nintendo
            && emulator_list()[i].caveat is None,
        emulator_list()[i].name == "melonDS"@ ==> emulator_list()[i].package == "melonds"@
            && emulator_list()[i].binary == "melonDS"@ && emulator_list()[i].family == Family::Nintendo
            && emulator_list()[i].caveat is Some,
        emulator_list()[i].name == "mGBA"@ ==> emulator_list()[i].package == "mgba-qt"@
            && emulator_list()[i].binary == "mgba-qt"@ && emulator_list()[i].family == Family::Nintendo
            && emulator_list()[i].caveat is None,
        emulator_list()[i].name == "Snes9x"@ ==> emulator_list()[i].package == "snes9x-gtk"@
            && emulator_list()[i].binary == "snes9x-gtk"@ && emulator_list()[i].family == Family::Nintendo
            && emulator_list()[i].caveat is None,
        emulator_list()[i].name == "Mupen64Plus"@ ==> emulator_list()[i].package == "mupen64plus"@
            && emulator_list()[i].binary == "mupen64plus"@ && emulator_list()[i].family == Family::Nintendo
            && emulator_list()[i].caveat is None,
        emulator_list()[i].name == "Ryujinx"@ ==> emulator_list()[i].package == "ryujinx"@
            && emulator_list()[i].binary == "Ryujinx"@ && emulator_list()[i].family == Family::Nintendo
            && emulator_list()[i].caveat is Some,
        emulator_list()[i].name == "DuckStation"@ ==> emulator_list()[i].package == "duckstation"@
            && emulator_list()[i].binary == "duckstation-qt"@ && emulator_list()[i].family == Family::Sony
            && emulator_list()[i].caveat is Some,
        emulator_list()[i].name == "PCSX2"@ ==> emulator_list()[i].package == "pcsx2"@
            && emulator_list()[i].binary == "pcsx2-qt"@ && emulator_list()[i].family == Family::Sony
            && emulator_list()[i].caveat is Some,
        emulator_list()[i].name == "RPCS3"@ ==> emulator_list()[i].package == "rpcs3"@
            && emulator_list()[i].binary == "rpcs3"@ && emulator_list()[i].family == Family::Sony
            && emulator_list()[i].caveat is Some,
        emulator_list()[i].name == "PPSSPP"@ ==> emulator_list()[i].package == "ppsspp"@
            && emulator_list()[i].binary == "PPSSPPSDL"@ && emulator_list()[i].family == Family::Sony
            && emulator_list()[i].caveat is None,
        emulator_list()[i].name == "Flycast"@ ==> emulator_list()[i].package == "flycast"@
            && emulator_list()[i].binary == "flycast"@ && emulator_list()[i].family == Family::Sega
            && emulator_list()[i].caveat is Some,
        emulator_list()[i].name == "xemu"@ ==> emulator_list()[i].package == "xemu"@
            && emulator_list()[i].binary == "xemu"@ && emulator_list()[i].family == Family::Microsoft
            && emulator_list()[i].caveat is Some,
        emulator_list()[i].name == "ScummVM"@ ==> emulator_list()[i].package == "scummvm"@
            && emulator_list()[i].binary == "scummvm"@ && emulator_list()[i].family == Family::Computer
            && emulator_list()[i].caveat is None,
        emulator_list()[i].name == "DOSBox Staging"@ ==> emulator_list()[i].package == "dosbox-staging"@
            && emulator_list()[i].binary == "dosbox"@ && emulator_list()[i].family == Family::Computer
            && emulator_list()[i].caveat is None,
        emulator_list().len() == 16,
{
    lemma_names_differ();
    assert(emulator_list()[0].name == "RetroArch"@);
    if emulator_list()[i].name == "RetroArch"@ {
        lemma_same_emulator(i, 0);
    }
    assert(emulator_list()[1].name == "Ares"@);
    if emulator_list()[i].name == "Ares"@ {
        lemma_same_emulator(i, 1);
    }
    assert(emulator_list()[2].name == "Dolphin"@);
    if emulator_list()[i].name == "Dolphin"@ {
        lemma_same_emulator(i, 2);
    }
    assert(emulator_list()[3].name == "melonDS"@);
    if emulator_list()[i].name == "melonDS"@ {
        lemma_same_emulator(i, 3);
    }
    assert(emulator_list()[4].name == "mGBA"@);
    if emulator_list()[i].name == "mGBA"@ {
        lemma_same_emulator(i, 4);
    }
    assert(emulator_list()[5].name == "Snes9x"@);
    if emulator_list()[i].name == "Snes9x"@ {
        lemma_same_emulator(i, 5);
    }
    assert(emulator_list()[6].name == "Mupen64Plus"@);
    if emulator_list()[i].name == "Mupen64Plus"@ {
        lemma_same_emulator(i, 6);
    }
    assert(emulator_list()[7].name == "Ryujinx"@);
    if emulator_list()[i].name == "Ryujinx"@ {
        lemma_same_emulator(i, 7);
    }
    assert(emulator_list()[8].name == "DuckStation"@);
    if emulator_list()[i].name == "DuckStation"@ {
        lemma_same_emulator(i, 8);
    }
    assert(emulator_list()[9].name == "PCSX2"@);
    if emulator_list()[i].name == "PCSX2"@ {
        lemma_same_emulator(i, 9);
    }
    assert(emulator_list()[10].name == "RPCS3"@);
    if emulator_list()[i].name == "RPCS3"@ {
        lemma_same_emulator(i, 10);
    }
    assert(emulator_list()[11].name == "PPSSPP"@);
    if emulator_list()[i].name == "PPSSPP"@ {
        lemma_same_emulator(i, 11);
    }
    assert(emulator_list()[12].name == "Flycast"@);
    if emulator_list()[i].name == "Flycast"@ {
        lemma_same_emulator(i, 12);
    }
    assert(emulator_list()[13].name == "xemu"@);
    if emulator_list()[i].name == "xemu"@ {
        lemma_same_emulator(i, 13);
    }
    assert(emulator_list()[14].name == "ScummVM"@);
    if emulator_list()[i].name == "ScummVM"@ {
        lemma_same_emulator(i, 14);
    }
    assert(emulator_list()[15].name == "DOSBox Staging"@);
    if emulator_list()[i].name == "DOSBox Staging"@ {
        lemma_same_emulator(i, 15);
    }
}

/// A machine meets what emulators need as far as it has it: a Vulkan driver whose library is there and that
/// is for one of its cards, a controller, and the 32-bit libraries; each is dealt with on its own page.
pub proof fn needs_are_met_by_what_is_there(
    icds: Seq<IcdModel>,
    gpus: Seq<GpuModel>,
    has_32bit_stack: bool,
    controllers: int,
)
    requires
        controllers >= 0,
    ensures
        needs(has_vulkan(icds, gpus), has_32bit_stack, controllers).len() == 3,
        needs(has_vulkan(icds, gpus), has_32bit_stack, controllers)[0].met <==> exists|i: int, k: int|
            #![trigger icds[i], gpus[k]]
            0 <= i < icds.len() && 0 <= k < gpus.len() && icds[i].library_present && icds[i].vendor
                == gpus[k].vendor,
        needs(has_vulkan(icds, gpus), has_32bit_stack, controllers)[1].met <==> controllers > 0,
        needs(has_vulkan(icds, gpus), has_32bit_stack, controllers)[2].met <==> has_32bit_stack,
        needs(has_vulkan(icds, gpus), has_32bit_stack, controllers)[0].page == "graphics"@,
        needs(has_vulkan(icds, gpus), has_32bit_stack, controllers)[1].page == "controllers"@,
        needs(has_vulkan(icds, gpus), has_32bit_stack, controllers)[2].page == "graphics"@,
{
    if has_vulkan(icds, gpus) {
        let i = choose|i: int|
            0 <= i < icds.len() && (#[trigger] icds[i]).library_present && has_vendor(
                gpus,
                icds[i].vendor,
            );
        let k = choose|k: int| 0 <= k < gpus.len() && (#[trigger] gpus[k]).vendor == icds[i].vendor;
        assert(icds[i].vendor == gpus[k].vendor);
    }
    if exists|i: int, k: int|
        #![trigger icds[i], gpus[k]]
        0 <= i < icds.len() && 0 <= k < gpus.len() && icds[i].library_present && icds[i].vendor
            == gpus[k].vendor {
        let (i, k) = choose|i: int, k: int|
            #![trigger icds[i], gpus[k]]
            0 <= i < icds.len() && 0 <= k < gpus.len() && icds[i].library_present && icds[i].vendor
                == gpus[k].vendor;
        assert(has_vendor(gpus, icds[i].vendor));
    }
}

} // verus!
