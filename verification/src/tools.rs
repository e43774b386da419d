//! Game tools: the things that go around a game rather than in it, and the Proton prefixes they
//! end up operating on.
//!
//! The first half is a catalogue: what each tool is for, and whether it is installed. The second is
//! about this machine: the Proton builds Steam has, and the prefix each game keeps its Windows-side
//! files in, so that one can be seen, found, and got rid of on purpose rather than by pasting a path
//! into a terminal.
use vstd::prelude::*;
use crate::checks::str_texts;
use crate::collections::{NameSet, TextMap};
use crate::lists::{lemma_filter_count, lemma_filter_members, lemma_filter_step};
use crate::order::{
    by_rank, in_order, items_stay_apart, no_later, ranks, sort, sorting_orders, text_le,
    text_le_total, text_le_transitive, Ranked,
};
use crate::path::{
    file_name, is_within, joined_path, joining_adds_a_part, leads_through, name_of_path,
    parts_of, path_parts,
};
use crate::text::{
    all_digits, cat2, cat4, chars_of, equal, only_digits, starts_with, trim, trimmed,
};
use crate::tune::{final_line, folder_bytes, last_line, tree_size, Tree};

verus! {

#[derive(Debug, Clone, Copy, PartialEq, Eq, PartialOrd, Ord, Structural)]
pub enum Kind {
    Performance,
    Overlay,
    Compatibility,
    Diagnostics,
}

impl Kind {
    pub fn title(self) -> (r: &'static str)
        ensures
            r@ == (match self {
                Kind::Performance => "Performance"@,
                Kind::Overlay => "Overlays and tuning"@,
                Kind::Compatibility => "Windows compatibility"@,
                Kind::Diagnostics => "Diagnostics"@,
            }),
    {
        match self {
            Kind::Performance => "Performance",
            Kind::Overlay => "Overlays and tuning",
            Kind::Compatibility => "Windows compatibility",
            Kind::Diagnostics => "Diagnostics",
        }
    }

    pub fn lede(self) -> (r: &'static str)
        ensures
            r@ == (match self {
                Kind::Performance => "Wrappers a game is started through, which change how the system treats it while it runs."@,
                Kind::Overlay => "Things drawn over a game, or that change how it is drawn."@,
                Kind::Compatibility => "What runs Windows games, and what fixes them when they will not run."@,
                Kind::Diagnostics => "Small programs that answer \"is the driver actually working\"."@,
            }),
    {
        match self {
            Kind::Performance => "Wrappers a game is started through, which change how the system treats it while it runs.",
            Kind::Overlay => "Things drawn over a game, or that change how it is drawn.",
            Kind::Compatibility => "What runs Windows games, and what fixes them when they will not run.",
            Kind::Diagnostics => "Small programs that answer \"is the driver actually working\".",
        }
    }

    pub fn tint(self) -> (r: &'static str)
        ensures
            r@ == (match self {
                Kind::Performance => "orange"@,
                Kind::Overlay => "purple"@,
                Kind::Compatibility => "blue"@,
                Kind::Diagnostics => "teal"@,
            }),
    {
        match self {
            Kind::Performance => "orange",
            Kind::Overlay => "purple",
            Kind::Compatibility => "blue",
            Kind::Diagnostics => "teal",
        }
    }
}

/// The shelves, in the order they are shown in.
pub const KINDS: [Kind; 4] = [
    Kind::Performance,
    Kind::Overlay,
    Kind::Compatibility,
    Kind::Diagnostics,
];

#[derive(Debug, Clone, Copy)]
pub struct Tool {
    pub name: &'static str,
    pub package: &'static str,
    /// What to run to check for it and, where it makes sense, to start it.
    pub binary: &'static str,
    pub kind: Kind,
    pub what: &'static str,
    /// True when running it from here makes sense. A library does not.
    pub launchable: bool,
}

/// What is said of a tool.
#[verifier::ext_equal]
pub struct ToolModel {
    pub name: Seq<char>,
    pub package: Seq<char>,
    pub binary: Seq<char>,
    pub kind: Kind,
    pub what: Seq<char>,
    pub launchable: bool,
}

impl DeepView for Tool {
    type V = ToolModel;

    open spec fn deep_view(&self) -> ToolModel {
        tool_of(
            self.name@,
            self.package@,
            self.binary@,
            self.kind,
            self.what@,
            self.launchable,
        )
    }
}

/// A tool, from what is said of it.
pub open spec fn tool_of(
    name: Seq<char>,
    package: Seq<char>,
    binary: Seq<char>,
    kind: Kind,
    what: Seq<char>,
    launchable: bool,
) -> ToolModel {
    ToolModel { name, package, binary, kind, what, launchable }
}

impl Tool {
    /// Installed, judged by the binary when there is one, and by the package database too:
    /// `lib32-mangohud` ships a library and no program, so looking for the program alone would always
    /// say no.
    pub fn is_installed<F: Fn(&str) -> bool>(&self, commands: &NameSet, packages: &F) -> (r: bool)
        requires
            packages.requires((self.package,)),
        ensures
            self.binary@.len() > 0 && commands@.contains(self.binary@) ==> r,
            !(self.binary@.len() > 0 && commands@.contains(self.binary@)) ==> packages.ensures(
                (self.package,),
                r,
            ),
    {
        if chars_of(self.binary).len() > 0 && commands.contains(self.binary) {
            true
        } else {
            packages(self.package)
        }
    }
}

/// The tools worth knowing, by what they are for.
pub open spec fn tool_list() -> Seq<ToolModel> {
    seq![
        tool_of(
            "GameMode"@,
            "gamemode"@,
            "gamemoderun"@,
            Kind::Performance,
            "Puts the processor in performance mode while a game runs and back afterwards, so a game does not have to wait for the governor to notice it."@,
            false,
        ),
        tool_of(
            "GameMode, 32-bit"@,
            "lib32-gamemode"@,
            ""@,
            Kind::Performance,
            "The same, for 32-bit and Proton games, which cannot load the 64-bit library."@,
            false,
        ),
        tool_of(
            "Gamescope"@,
            "gamescope"@,
            "gamescope"@,
            Kind::Performance,
            "Runs a game inside its own tiny compositor, so its resolution, refresh rate and scaling are its own and not the desktop's."@,
            false,
        ),
        tool_of(
            "MangoHud"@,
            "mangohud"@,
            "mangohud"@,
            Kind::Overlay,
            "Frame rate, frame times, temperatures and clocks drawn in the corner of the game itself."@,
            false,
        ),
        tool_of(
            "MangoHud, 32-bit"@,
            "lib32-mangohud"@,
            ""@,
            Kind::Overlay,
            "The same overlay inside 32-bit and Proton games."@,
            false,
        ),
        tool_of(
            "GOverlay"@,
            "goverlay"@,
            "goverlay"@,
            Kind::Overlay,
            "A window for configuring MangoHud and vkBasalt, instead of editing their config files."@,
            true,
        ),
        tool_of(
            "vkBasalt"@,
            "vkbasalt"@,
            ""@,
            Kind::Overlay,
            "Post-processing — sharpening, colour — applied to any Vulkan game as it is drawn."@,
            false,
        ),
        tool_of(
            "CoreCtrl"@,
            "corectrl"@,
            "corectrl"@,
            Kind::Overlay,
            "Fan curves, clocks and voltages for AMD cards, with a profile per game."@,
            true,
        ),
        tool_of(
            "Steam"@,
            "steam"@,
            "steam"@,
            Kind::Compatibility,
            "Valve's client, and Proton with it — the translation layer that runs Windows games."@,
            true,
        ),
        tool_of(
            "Lutris"@,
            "lutris"@,
            "lutris"@,
            Kind::Compatibility,
            "Installs and manages games from GOG, Epic, Battle.net and elsewhere, each in its own prefix."@,
            true,
        ),
        tool_of(
            "Heroic"@,
            "heroic-games-launcher"@,
            "heroic"@,
            Kind::Compatibility,
            "A launcher for Epic, GOG and Amazon libraries."@,
            true,
        ),
        tool_of(
            "Protontricks"@,
            "protontricks"@,
            "protontricks"@,
            Kind::Compatibility,
            "Runs winetricks against a Steam game's own prefix, which is how a missing Windows runtime gets installed into it."@,
            true,
        ),
        tool_of(
            "Winetricks"@,
            "winetricks"@,
            "winetricks"@,
            Kind::Compatibility,
            "The same for prefixes that are not Steam's."@,
            true,
        ),
        tool_of(
            "Vulkan tools"@,
            "vulkan-tools"@,
            "vulkaninfo"@,
            Kind::Diagnostics,
            "`vkcube` draws a spinning cube and `vulkaninfo` prints what the driver can do. Between them they settle whether Vulkan works."@,
            false,
        ),
        tool_of(
            "Mesa utilities"@,
            "mesa-utils"@,
            "glxinfo"@,
            Kind::Diagnostics,
            "`glxinfo` and `glxgears`, the same question for OpenGL."@,
            false,
        ),
        tool_of(
            "inxi"@,
            "inxi"@,
            "inxi"@,
            Kind::Diagnostics,
            "Prints a summary of the whole machine, which is what a support forum asks for first."@,
            false,
        ),
    ]
}

/// The catalogue, in the order the page lists it.
pub fn catalogue() -> (r: Vec<Tool>)
    ensures
        r.deep_view() == tool_list(),
{
    let tools = vec![
        Tool {
            name: "GameMode",
            package: "gamemode",
            binary: "gamemoderun",
            kind: Kind::Performance,
            what: "Puts the processor in performance mode while a game runs and back afterwards, so a game does not have to wait for the governor to notice it.",
            launchable: false,
        },
        Tool {
            name: "GameMode, 32-bit",
            package: "lib32-gamemode",
            binary: "",
            kind: Kind::Performance,
            what: "The same, for 32-bit and Proton games, which cannot load the 64-bit library.",
            launchable: false,
        },
        Tool {
            name: "Gamescope",
            package: "gamescope",
            binary: "gamescope",
            kind: Kind::Performance,
            what: "Runs a game inside its own tiny compositor, so its resolution, refresh rate and scaling are its own and not the desktop's.",
            launchable: false,
        },
        Tool {
            name: "MangoHud",
            package: "mangohud",
            binary: "mangohud",
            kind: Kind::Overlay,
            what: "Frame rate, frame times, temperatures and clocks drawn in the corner of the game itself.",
            launchable: false,
        },
        Tool {
            name: "MangoHud, 32-bit",
            package: "lib32-mangohud",
            binary: "",
            kind: Kind::Overlay,
            what: "The same overlay inside 32-bit and Proton games.",
            launchable: false,
        },
        Tool {
            name: "GOverlay",
            package: "goverlay",
            binary: "goverlay",
            kind: Kind::Overlay,
            what: "A window for configuring MangoHud and vkBasalt, instead of editing their config files.",
            launchable: true,
        },
        Tool {
            name: "vkBasalt",
            package: "vkbasalt",
            binary: "",
            kind: Kind::Overlay,
            what: "Post-processing — sharpening, colour — applied to any Vulkan game as it is drawn.",
            launchable: false,
        },
        Tool {
            name: "CoreCtrl",
            package: "corectrl",
            binary: "corectrl",
            kind: Kind::Overlay,
            what: "Fan curves, clocks and voltages for AMD cards, with a profile per game.",
            launchable: true,
        },
        Tool {
            name: "Steam",
            package: "steam",
            binary: "steam",
            kind: Kind::Compatibility,
            what: "Valve's client, and Proton with it — the translation layer that runs Windows games.",
            launchable: true,
        },
        Tool {
            name: "Lutris",
            package: "lutris",
            binary: "lutris",
            kind: Kind::Compatibility,
            what: "Installs and manages games from GOG, Epic, Battle.net and elsewhere, each in its own prefix.",
            launchable: true,
        },
        Tool {
            name: "Heroic",
            package: "heroic-games-launcher",
            binary: "heroic",
            kind: Kind::Compatibility,
            what: "A launcher for Epic, GOG and Amazon libraries.",
            launchable: true,
        },
        Tool {
            name: "Protontricks",
            package: "protontricks",
            binary: "protontricks",
            kind: Kind::Compatibility,
            what: "Runs winetricks against a Steam game's own prefix, which is how a missing Windows runtime gets installed into it.",
            launchable: true,
        },
        Tool {
            name: "Winetricks",
            package: "winetricks",
            binary: "winetricks",
            kind: Kind::Compatibility,
            what: "The same for prefixes that are not Steam's.",
            launchable: true,
        },
        Tool {
            name: "Vulkan tools",
            package: "vulkan-tools",
            binary: "vulkaninfo",
            kind: Kind::Diagnostics,
            what: "`vkcube` draws a spinning cube and `vulkaninfo` prints what the driver can do. Between them they settle whether Vulkan works.",
            launchable: false,
        },
        Tool {
            name: "Mesa utilities",
            package: "mesa-utils",
            binary: "glxinfo",
            kind: Kind::Diagnostics,
            what: "`glxinfo` and `glxgears`, the same question for OpenGL.",
            launchable: false,
        },
        Tool {
            name: "inxi",
            package: "inxi",
            binary: "inxi",
            kind: Kind::Diagnostics,
            what: "Prints a summary of the whole machine, which is what a support forum asks for first.",
            launchable: false,
        },
    ];
    assert(tools.deep_view() =~= tool_list());
    tools
}

/// The tools of a kind.
pub open spec fn shelf(tools: Seq<ToolModel>, kind: Kind) -> Seq<ToolModel> {
    tools.filter(|t: ToolModel| t.kind == kind)
}

/// The tools on a shelf.
pub fn by_kind(kind: Kind) -> (r: Vec<Tool>)
    ensures
        r.deep_view() == shelf(tool_list(), kind),
{
    let all = catalogue();
    let ghost every = all.deep_view();
    let ghost p = |t: ToolModel| t.kind == kind;
    let mut out: Vec<Tool> = Vec::new();
    let mut i: usize = 0;
    proof {
        reveal(Seq::filter);
        assert(out.deep_view() =~= every.take(0).filter(p));
    }
    while i < all.len()
        invariant
            i <= all.len(),
            every == all.deep_view(),
            p == (|t: ToolModel| t.kind == kind),
            out.deep_view() == every.take(i as int).filter(p),
        decreases all.len() - i,
    {
        proof {
            lemma_filter_step(every, i as int, p);
            assert(every[i as int] == all@[i as int].deep_view());
        }
        let ghost before = out.deep_view();
        if all[i].kind == kind {
            out.push(all[i]);
            assert(out.deep_view() =~= before.push(every[i as int]));
        }
        i = i + 1;
    }
    assert(every.take(i as int) =~= every);
    out
}

// ---------------------------------------------------------------------------
// Diagnostics
// ---------------------------------------------------------------------------

/// A diagnostic that can be run and read here rather than in a terminal.
#[derive(Debug, Clone, Copy)]
pub struct Probe {
    pub name: &'static str,
    pub binary: &'static str,
    pub args: &'static [&'static str],
    pub what: &'static str,
}

/// What is said of a diagnostic.
#[verifier::ext_equal]
pub struct ProbeModel {
    pub name: Seq<char>,
    pub binary: Seq<char>,
    pub args: Seq<Seq<char>>,
    pub what: Seq<char>,
}

impl DeepView for Probe {
    type V = ProbeModel;

    open spec fn deep_view(&self) -> ProbeModel {
        ProbeModel {
            name: self.name@,
            binary: self.binary@,
            args: str_texts(self.args@),
            what: self.what@,
        }
    }
}

fn probe_of(
    name: &'static str,
    binary: &'static str,
    args: &'static [&'static str],
    what: &'static str,
) -> (r: Probe)
    ensures
        r.deep_view() == (ProbeModel {
            name: name@,
            binary: binary@,
            args: str_texts(args@),
            what: what@,
        }),
{
    Probe { name, binary, args, what }
}

/// The diagnostics that are offered. Every one of them prints and exits.
pub open spec fn probe_list() -> Seq<ProbeModel> {
    seq![
        ProbeModel {
            name: "Vulkan summary"@,
            binary: "vulkaninfo"@,
            args: seq!["--summary"@],
            what: "Which Vulkan drivers the loader found, and what each one is."@,
        },
        ProbeModel {
            name: "OpenGL renderer"@,
            binary: "glxinfo"@,
            args: seq!["-B"@],
            what: "Which card OpenGL is rendering on, and with what driver."@,
        },
        ProbeModel {
            name: "Graphics summary"@,
            binary: "inxi"@,
            args: seq!["-Gxx"@],
            what: "The cards, their drivers and the display, in one paragraph."@,
        },
    ]
}

/// The diagnostics that are offered.
pub fn probes() -> (r: Vec<Probe>)
    ensures
        r.deep_view() == probe_list(),
{
    let list = vec![
        probe_of(
            "Vulkan summary",
            "vulkaninfo",
            &["--summary"],
            "Which Vulkan drivers the loader found, and what each one is.",
        ),
        probe_of(
            "OpenGL renderer",
            "glxinfo",
            &["-B"],
            "Which card OpenGL is rendering on, and with what driver.",
        ),
        probe_of(
            "Graphics summary",
            "inxi",
            &["-Gxx"],
            "The cards, their drivers and the display, in one paragraph.",
        ),
    ];
    assert(str_texts(list@[0].args@) =~= seq!["--summary"@]);
    assert(str_texts(list@[1].args@) =~= seq!["-B"@]);
    assert(str_texts(list@[2].args@) =~= seq!["-Gxx"@]);
    assert(list.deep_view() =~= probe_list());
    list
}

impl Probe {
    pub fn is_available(&self, commands: &NameSet) -> (r: bool)
        ensures
            r == commands@.contains(self.binary@),
    {
        commands.contains(self.binary)
    }

    /// The command that runs it, where its program was found. Read-only, every one of them.
    pub fn run(&self, program: Option<&str>) -> (r: Result<Vec<String>, String>)
        ensures
            r is Ok == program is Some,
            match r {
                Ok(command) => command.deep_view() == seq![program->0@] + str_texts(self.args@),
                Err(message) => message@ == self.binary@ + " is not installed"@,
            },
    {
        match program {
            Some(found) => {
                let ghost every = str_texts(self.args@);
                let mut command: Vec<String> = Vec::new();
                command.push(String::from_str(found));
                let mut i: usize = 0;
                assert(command.deep_view() =~= seq![found@] + every.take(0));
                while i < self.args.len()
                    invariant
                        i <= self.args.len(),
                        every == str_texts(self.args@),
                        command.deep_view() == seq![found@] + every.take(i as int),
                    decreases self.args.len() - i,
                {
                    let ghost before = command.deep_view();
                    command.push(String::from_str(self.args[i]));
                    assert(command.deep_view() =~= before.push(every[i as int]));
                    assert(every.take(i + 1) =~= every.take(i as int).push(every[i as int]));
                    i = i + 1;
                    assert(command.deep_view() =~= seq![found@] + every.take(i as int));
                }
                assert(every.take(i as int) =~= every);
                Ok(command)
            },
            None => Err(cat2(self.binary, " is not installed")),
        }
    }

    /// What is said where it could not be run.
    pub fn run_failure(&self, error: &str) -> (r: String)
        ensures
            r@ == "Could not run "@ + self.binary@ + ": "@ + error@,
    {
        cat4("Could not run ", self.binary, ": ", error)
    }
}

/// What a diagnostic said; where that is nothing, the last line of what it complained about.
pub fn probe_outcome(stdout: &str, stderr: &str) -> (r: Result<String, String>)
    ensures
        r is Ok == (trim(stdout@).len() > 0),
        match r {
            Ok(text) => text@ == stdout@,
            Err(message) => message@ == (match final_line(stderr@) {
                Some(line) => line,
                None => "It printed nothing"@,
            }),
        },
{
    if trimmed(&chars_of(stdout)).len() > 0 {
        return Ok(String::from_str(stdout));
    }
    match last_line(stderr) {
        Some(line) => Err(line),
        None => Err(String::from_str("It printed nothing")),
    }
}

// ---------------------------------------------------------------------------
// Proton
// ---------------------------------------------------------------------------

#[derive(Debug, Clone, PartialEq, Eq)]
pub struct ProtonBuild {
    pub name: String,
    /// Valve's own, as against one installed by hand.
    pub official: bool,
    pub path: String,
}

/// What is known of a Proton build.
#[verifier::ext_equal]
pub struct BuildModel {
    pub name: Seq<char>,
    pub official: bool,
    pub path: Seq<char>,
}

impl DeepView for ProtonBuild {
    type V = BuildModel;

    open spec fn deep_view(&self) -> BuildModel {
        BuildModel { name: self.name@, official: self.official, path: self.path@ }
    }
}

/// Builds installed by hand come first, and each half by name.
impl Ranked for ProtonBuild {
    open spec fn le(a: BuildModel, b: BuildModel) -> bool {
        if a.official != b.official {
            !a.official
        } else {
            text_le(a.name, b.name)
        }
    }

    fn at_most(&self, other: &ProtonBuild) -> (r: bool) {
        if self.official != other.official {
            !self.official
        } else {
            no_later(&self.name, &other.name)
        }
    }
}

/// Where a Steam installation keeps its builds: Valve's own among the games, and those installed by
/// hand.
pub fn proton_dirs(root: &str) -> (r: (String, String))
    ensures
        r.0@ == crate::path::join(root@, "steamapps/common"@),
        r.1@ == crate::path::join(root@, "compatibilitytools.d"@),
{
    (joined_path(root, "steamapps/common"), joined_path(root, "compatibilitytools.d"))
}

/// An entry of a directory that Steam keeps things in.
#[derive(Debug)]
pub struct SteamEntry {
    pub name: String,
    pub path: String,
    pub is_dir: bool,
    /// Whether it stands among the games, where Valve's own builds are.
    pub official: bool,
}

/// What is known of an entry.
#[verifier::ext_equal]
pub struct EntryModel {
    pub name: Seq<char>,
    pub path: Seq<char>,
    pub is_dir: bool,
    pub official: bool,
}

impl DeepView for SteamEntry {
    type V = EntryModel;

    open spec fn deep_view(&self) -> EntryModel {
        EntryModel {
            name: self.name@,
            path: self.path@,
            is_dir: self.is_dir,
            official: self.official,
        }
    }
}

/// An entry is a Proton build. Among the games only the Proton directories are; the rest is games.
pub open spec fn is_build(e: EntryModel) -> bool {
    e.is_dir && (e.official ==> "Proton"@.is_prefix_of(e.name))
}

/// Some build has a name.
pub open spec fn has_build(builds: Seq<BuildModel>, name: Seq<char>) -> bool {
    exists|i: int| 0 <= i < builds.len() && (#[trigger] builds[i]).name == name
}

/// The builds among some entries, the first of each name.
pub open spec fn builds_among(entries: Seq<EntryModel>) -> Seq<BuildModel>
    decreases entries.len(),
{
    if entries.len() == 0 {
        Seq::empty()
    } else {
        let before = builds_among(entries.drop_last());
        let e = entries.last();
        if is_build(e) && !has_build(before, e.name) {
            before.push(BuildModel { name: e.name, official: e.official, path: e.path })
        } else {
            before
        }
    }
}

fn knows_build(builds: &Vec<ProtonBuild>, name: &str) -> (r: bool)
    ensures
        r == has_build(builds.deep_view(), name@),
{
    let mut i: usize = 0;
    while i < builds.len()
        invariant
            i <= builds.len(),
            forall|j: int| 0 <= j < i ==> (#[trigger] builds.deep_view()[j]).name != name@,
        decreases builds.len() - i,
    {
        assert(builds.deep_view()[i as int] == builds@[i as int].deep_view());
        if equal(&builds[i].name, name) {
            return true;
        }
        i = i + 1;
    }
    false
}

/// Every Proton build Steam can use, from the entries of the directories that hold them.
pub fn proton_builds(entries: &Vec<SteamEntry>) -> (r: Vec<ProtonBuild>)
    ensures
        r.deep_view() == by_rank::<ProtonBuild>(builds_among(entries.deep_view())),
{
    let ghost every = entries.deep_view();
    let mut builds: Vec<ProtonBuild> = Vec::new();
    let mut i: usize = 0;
    assert(builds.deep_view() =~= Seq::empty());
    while i < entries.len()
        invariant
            i <= entries.len(),
            every == entries.deep_view(),
            builds.deep_view() == builds_among(every.take(i as int)),
        decreases entries.len() - i,
    {
        assert(every.take(i + 1).drop_last() =~= every.take(i as int));
        assert(every.take(i + 1).last() == entries@[i as int].deep_view());
        let e = &entries[i];
        let counts: bool = e.is_dir && (!e.official || starts_with(&chars_of(&e.name), "Proton"));
        let ghost before = builds.deep_view();
        if counts && !knows_build(&builds, &e.name) {
            let build = ProtonBuild {
                name: e.name.clone(),
                official: e.official,
                path: e.path.clone(),
            };
            let ghost item = build.deep_view();
            builds.push(build);
            assert(builds.deep_view() =~= before.push(item));
        }
        i = i + 1;
    }
    assert(every.take(i as int) =~= every);
    sort(builds)
}

/// One game's Windows-side world: its C: drive, registry and saves.
#[derive(Debug, Clone, PartialEq, Eq)]
pub struct Prefix {
    pub app_id: String,
    /// The game's name, when the library knew it.
    pub game: Option<String>,
    pub path: String,
    pub bytes: u64,
}

/// What is known of a prefix.
#[verifier::ext_equal]
pub struct PrefixModel {
    pub app_id: Seq<char>,
    pub game: Option<Seq<char>>,
    pub path: Seq<char>,
    pub bytes: u64,
}

impl DeepView for Prefix {
    type V = PrefixModel;

    open spec fn deep_view(&self) -> PrefixModel {
        PrefixModel {
            app_id: self.app_id@,
            game: self.game.deep_view(),
            path: self.path@,
            bytes: self.bytes,
        }
    }
}

impl Prefix {
    pub fn title(&self) -> (r: String)
        ensures
            r@ == (match self.game {
                Some(name) => name@,
                None => "App "@ + self.app_id@,
            }),
    {
        match &self.game {
            Some(name) => name.clone(),
            None => cat2("App ", &self.app_id),
        }
    }
}

/// The largest prefix comes first.
impl Ranked for Prefix {
    open spec fn le(a: PrefixModel, b: PrefixModel) -> bool {
        a.bytes >= b.bytes
    }

    fn at_most(&self, other: &Prefix) -> (r: bool) {
        self.bytes >= other.bytes
    }
}

/// Where a Steam installation keeps its prefixes.
pub fn prefix_dir(root: &str) -> (r: String)
    ensures
        r@ == crate::path::join(root@, "steamapps/compatdata"@),
{
    joined_path(root, "steamapps/compatdata")
}

/// An entry of a directory of prefixes, and the bytes under it.
#[derive(Debug)]
pub struct PrefixEntry {
    pub name: String,
    pub path: String,
    pub is_dir: bool,
    pub bytes: u64,
}

/// What is known of an entry.
#[verifier::ext_equal]
pub struct PrefixEntryModel {
    pub name: Seq<char>,
    pub path: Seq<char>,
    pub is_dir: bool,
    pub bytes: u64,
}

impl DeepView for PrefixEntry {
    type V = PrefixEntryModel;

    open spec fn deep_view(&self) -> PrefixEntryModel {
        PrefixEntryModel {
            name: self.name@,
            path: self.path@,
            is_dir: self.is_dir,
            bytes: self.bytes,
        }
    }
}

/// Some prefix is of an app.
pub open spec fn has_prefix_of(found: Seq<PrefixModel>, app_id: Seq<char>) -> bool {
    exists|i: int| 0 <= i < found.len() && (#[trigger] found[i]).app_id == app_id
}

/// The name of a game, where the library knew it.
pub open spec fn game_named(names: Map<Seq<char>, Seq<char>>, app_id: Seq<char>) -> Option<
    Seq<char>,
> {
    if names.contains_key(app_id) {
        Some(names[app_id])
    } else {
        None
    }
}

/// The prefixes among some entries: the directories that are named as app ids are, the first of
/// each.
pub open spec fn prefixes_among(
    entries: Seq<PrefixEntryModel>,
    names: Map<Seq<char>, Seq<char>>,
) -> Seq<PrefixModel>
    decreases entries.len(),
{
    if entries.len() == 0 {
        Seq::empty()
    } else {
        let before = prefixes_among(entries.drop_last(), names);
        let e = entries.last();
        if e.is_dir && all_digits(e.name) && !has_prefix_of(before, e.name) {
            before.push(
                PrefixModel {
                    app_id: e.name,
                    game: game_named(names, e.name),
                    path: e.path,
                    bytes: e.bytes,
                },
            )
        } else {
            before
        }
    }
}

fn knows_prefix(found: &Vec<Prefix>, app_id: &str) -> (r: bool)
    ensures
        r == has_prefix_of(found.deep_view(), app_id@),
{
    let mut i: usize = 0;
    while i < found.len()
        invariant
            i <= found.len(),
            forall|j: int| 0 <= j < i ==> (#[trigger] found.deep_view()[j]).app_id != app_id@,
        decreases found.len() - i,
    {
        assert(found.deep_view()[i as int] == found@[i as int].deep_view());
        if equal(&found[i].app_id, app_id) {
            return true;
        }
        i = i + 1;
    }
    false
}

/// Every Proton prefix, largest first, from the entries of the directories of prefixes.
///
/// `names` maps a Steam app id to a game name, so that a prefix can be shown as the game it belongs
/// to. An id with no name is a game that has since been uninstalled, and its prefix is exactly the
/// kind of thing worth finding here.
pub fn prefixes(names: &TextMap, entries: &Vec<PrefixEntry>) -> (r: Vec<Prefix>)
    ensures
        r.deep_view() == by_rank::<Prefix>(prefixes_among(entries.deep_view(), names@)),
{
    let ghost every = entries.deep_view();
    let mut found: Vec<Prefix> = Vec::new();
    let mut i: usize = 0;
    assert(found.deep_view() =~= Seq::empty());
    while i < entries.len()
        invariant
            i <= entries.len(),
            every == entries.deep_view(),
            found.deep_view() == prefixes_among(every.take(i as int), names@),
        decreases entries.len() - i,
    {
        assert(every.take(i + 1).drop_last() =~= every.take(i as int));
        assert(every.take(i + 1).last() == entries@[i as int].deep_view());
        let e = &entries[i];
        let ghost before = found.deep_view();
        if e.is_dir && only_digits(&chars_of(&e.name)) && !knows_prefix(&found, &e.name) {
            let game: Option<String> = match names.get(&e.name) {
                Some(name) => Some(name.clone()),
                None => None,
            };
            let prefix = Prefix {
                app_id: e.name.clone(),
                game,
                path: e.path.clone(),
                bytes: e.bytes,
            };
            let ghost item = prefix.deep_view();
            assert(item.game == game_named(names@, e.name@));
            found.push(prefix);
            assert(found.deep_view() =~= before.push(item));
        }
        i = i + 1;
    }
    assert(every.take(i as int) =~= every);
    sort(found)
}

/// Bytes under a directory, depth-limited so that a link loop inside a prefix cannot hang the
/// window.
pub fn directory_size(entries: &Vec<Tree>, depth: u32) -> (r: u64)
    requires
        folder_bytes(entries@, depth as int, 6) <= u64::MAX,
    ensures
        r == folder_bytes(entries@, depth as int, 6),
{
    tree_size(entries, depth, 6)
}

/// The directory that holds what a path names is called `compatdata`.
pub open spec fn is_under_compatdata(path: Seq<char>) -> bool {
    let parts = path_parts(path);
    parts.len() >= 2 && parts[parts.len() - 2] == "compatdata"@
}

/// A path is inside one of some directories.
pub open spec fn is_in_one(path: Seq<char>, dirs: Seq<Seq<char>>) -> bool {
    exists|i: int| 0 <= i < dirs.len() && is_within(path, #[trigger] dirs[i])
}

/// A path may be deleted as a prefix: it is named as an app id, in a directory called `compatdata`,
/// inside a library's directory of prefixes, and it holds a prefix.
pub open spec fn may_be_deleted(path: Seq<char>, libraries: Seq<Seq<char>>, holds_prefix: bool) -> bool {
    &&& file_name(path) is Some
    &&& all_digits(file_name(path)->0)
    &&& is_under_compatdata(path)
    &&& is_in_one(path, libraries)
    &&& holds_prefix
}

/// Whether a path is a Proton prefix this app may delete. The path, and each library's directory of
/// prefixes, are given with every link resolved; what could not be resolved may not be deleted.
///
/// Belt and braces before an irreversible delete: a bug that passed the wrong path in gets refused
/// rather than removing somebody's home directory.
pub fn is_deletable_prefix(
    path: Option<&str>,
    libraries: &Vec<String>,
    has_pfx_dir: bool,
    has_pfx_lock: bool,
) -> (r: bool)
    ensures
        r == (path is Some && may_be_deleted(
            path->0@,
            libraries.deep_view(),
            has_pfx_dir || has_pfx_lock,
        )),
{
    match path {
        None => false,
        Some(p) => {
            let named: bool = match name_of_path(p) {
                Some(name) => only_digits(&chars_of(&name)),
                None => false,
            };
            let parts = parts_of(p);
            let n: usize = parts.len();
            assert(n >= 2 ==> parts.deep_view()[n - 2] == parts@[n - 2]@);
            let under: bool = n >= 2 && equal(&parts[n - 2], "compatdata");
            let ghost every = libraries.deep_view();
            let mut inside: bool = false;
            let mut i: usize = 0;
            while i < libraries.len()
                invariant
                    i <= libraries.len(),
                    every == libraries.deep_view(),
                    inside == is_in_one(p@, every.take(i as int)),
                decreases libraries.len() - i,
            {
                let ghost before = every.take(i as int);
                let ghost next = every.take(i + 1);
                assert(next =~= before.push(libraries@[i as int]@));
                let here: bool = leads_through(p, &libraries[i]);
                proof {
                    if is_in_one(p@, before) {
                        let k = choose|k: int|
                            0 <= k < before.len() && is_within(p@, #[trigger] before[k]);
                        assert(is_within(p@, next[k]));
                    }
                    if here {
                        assert(is_within(p@, next[i as int]));
                    }
                    if is_in_one(p@, next) && !here {
                        let k = choose|k: int|
                            0 <= k < next.len() && is_within(p@, #[trigger] next[k]);
                        assert(is_within(p@, before[k]));
                    }
                }
                if here {
                    inside = true;
                }
                i = i + 1;
            }
            assert(every.take(i as int) =~= every);
            named && under && inside && (has_pfx_dir || has_pfx_lock)
        },
    }
}

/// The command that opens protontricks against one game's prefix. What is no app id is refused, and
/// it is an error where the tool is not installed.
pub fn protontricks(binary: Option<&str>, app_id: &str) -> (r: Result<Vec<String>, String>)
    ensures
        r is Ok == (app_id@.len() > 0 && all_digits(app_id@) && binary is Some),
        match r {
            Ok(command) => command.deep_view() == seq![binary->0@, "--gui"@, app_id@],
            Err(message) => message@ == (if app_id@.len() > 0 && all_digits(app_id@) {
                "protontricks is not installed"@
            } else {
                "Not a Steam app id: "@ + app_id@
            }),
        },
{
    let chars = chars_of(app_id);
    if !only_digits(&chars) || chars.len() == 0 {
        return Err(cat2("Not a Steam app id: ", app_id));
    }
    match binary {
        Some(program) => {
            let mut command: Vec<String> = Vec::new();
            command.push(String::from_str(program));
            command.push(String::from_str("--gui"));
            command.push(String::from_str(app_id));
            assert(command.deep_view() =~= seq![program@, "--gui"@, app_id@]);
            Ok(command)
        },
        None => Err(String::from_str("protontricks is not installed")),
    }
}

/// What is said where protontricks could not be started.
pub fn protontricks_failure(error: &str) -> (r: String)
    ensures
        r@ == "Could not start protontricks: "@ + error@,
{
    cat2("Could not start protontricks: ", error)
}

// ---------------------------------------------------------------------------
// Laws
// ---------------------------------------------------------------------------

/// What a name is told by: its length and its first two letters.
spec fn mark(name: Seq<char>) -> (nat, char, char) {
    (name.len(), name[0], name[1])
}

proof fn lemma_names_differ()
    ensures
        tool_list().len() == 16,
        forall|i: int, j: int|
            0 <= i < j < 16 ==> (#[trigger] tool_list()[i]).name != (
            #[trigger] tool_list()[j]).name,
{
    reveal_strlit("GameMode");
    reveal_strlit("GameMode, 32-bit");
    reveal_strlit("Gamescope");
    reveal_strlit("MangoHud");
    reveal_strlit("MangoHud, 32-bit");
    reveal_strlit("GOverlay");
    reveal_strlit("vkBasalt");
    reveal_strlit("CoreCtrl");
    reveal_strlit("Steam");
    reveal_strlit("Lutris");
    reveal_strlit("Heroic");
    reveal_strlit("Protontricks");
    reveal_strlit("Winetricks");
    reveal_strlit("Vulkan tools");
    reveal_strlit("Mesa utilities");
    reveal_strlit("inxi");
    let all = tool_list();
    assert(all.len() == 16);
    assert forall|i: int, j: int| 0 <= i < j < 16 implies (#[trigger] all[i]).name != (
    #[trigger] all[j]).name by {
        assert(mark(all[i].name) != mark(all[j].name));
    }
}

/// Every tool of the catalogue stands on the shelf of its kind, once, and on no other shelf.
pub proof fn every_tool_is_shelved_once(i: int, kind: Kind)
    requires
        0 <= i < tool_list().len(),
    ensures
        shelf(tool_list(), kind).to_multiset().count(tool_list()[i]) == (if tool_list()[i].kind
            == kind {
            1nat
        } else {
            0nat
        }),
{
    let all = tool_list();
    lemma_names_differ();
    assert(all.no_duplicates());
    all.lemma_multiset_has_no_duplicates();
    all.to_multiset_ensures();
    assert(all.contains(all[i]));
    lemma_filter_count(all, |e: ToolModel| e.kind == kind, all[i]);
}

/// No shelf is empty, and every shelf is shown.
pub proof fn no_shelf_is_empty(kind: Kind)
    ensures
        shelf(tool_list(), kind).len() > 0,
        KINDS@.contains(kind),
{
    let all = tool_list();
    let p = |e: ToolModel| e.kind == kind;
    lemma_filter_members(all, p);
    match kind {
        Kind::Performance => {
            assert(p(all[0]) && all.contains(all[0]));
            assert(shelf(all, kind).contains(all[0]));
            assert(KINDS@[0] == kind);
        },
        Kind::Overlay => {
            assert(p(all[3]) && all.contains(all[3]));
            assert(shelf(all, kind).contains(all[3]));
            assert(KINDS@[1] == kind);
        },
        Kind::Compatibility => {
            assert(p(all[8]) && all.contains(all[8]));
            assert(shelf(all, kind).contains(all[8]));
            assert(KINDS@[2] == kind);
        },
        Kind::Diagnostics => {
            assert(p(all[13]) && all.contains(all[13]));
            assert(shelf(all, kind).contains(all[13]));
            assert(KINDS@[3] == kind);
        },
    }
}

/// Nothing stands on a shelf that is not in the catalogue, and what stands there is of its kind.
pub proof fn shelves_hold_the_catalogue(kind: Kind, e: ToolModel)
    ensures
        shelf(tool_list(), kind).contains(e) <==> tool_list().contains(e) && e.kind == kind,
{
    lemma_filter_members(tool_list(), |e: ToolModel| e.kind == kind);
}

/// Nothing outside a Steam library can be deleted.
pub proof fn nothing_outside_a_library_is_deleted(
    path: Seq<char>,
    libraries: Seq<Seq<char>>,
    holds_prefix: bool,
)
    requires
        forall|i: int| 0 <= i < libraries.len() ==> !is_within(path, #[trigger] libraries[i]),
    ensures
        !may_be_deleted(path, libraries, holds_prefix),
{
}

/// A library's directory of prefixes is never deleted itself.
pub proof fn the_library_itself_is_not_deleted(
    library: Seq<char>,
    libraries: Seq<Seq<char>>,
    holds_prefix: bool,
)
    requires
        file_name(library) == Some("compatdata"@),
    ensures
        !may_be_deleted(library, libraries, holds_prefix),
{
    reveal_strlit("compatdata");
    assert(!crate::text::is_digit("compatdata"@[0]));
}

/// A prefix that was found in a library's directory passes every guard.
pub proof fn a_prefix_passes_every_guard(
    dir: Seq<char>,
    app_id: Seq<char>,
    libraries: Seq<Seq<char>>,
)
    requires
        dir.len() > 0,
        path_parts(dir).len() > 0,
        path_parts(dir).last() == "compatdata"@,
        app_id.len() > 0,
        all_digits(app_id),
        libraries.contains(dir),
    ensures
        may_be_deleted(crate::path::join(dir, app_id), libraries, true),
{
    let path = crate::path::join(dir, app_id);
    assert(crate::text::is_digit(app_id[0]));
    reveal_strlit(".");
    reveal_strlit("..");
    assert(!app_id.contains('/')) by {
        if app_id.contains('/') {
            let k = choose|k: int| 0 <= k < app_id.len() && app_id[k] == '/';
            assert(crate::text::is_digit(app_id[k]));
        }
    }
    joining_adds_a_part(dir, app_id);
    assert(path_parts(path).last() == app_id);
    assert(app_id != ".."@);
    let k = choose|k: int| 0 <= k < libraries.len() && libraries[k] == dir;
    assert(is_within(path, libraries[k]));
}

proof fn builds_can_be_ranked()
    ensures
        ranks(|a: BuildModel, b: BuildModel| <ProtonBuild as Ranked>::le(a, b)),
{
    let le = |a: BuildModel, b: BuildModel| <ProtonBuild as Ranked>::le(a, b);
    assert forall|a: BuildModel, b: BuildModel| #[trigger] le(a, b) || le(b, a) by {
        text_le_total(a.name, b.name);
    }
    assert forall|a: BuildModel, b: BuildModel, c: BuildModel|
        #[trigger] le(a, b) && #[trigger] le(b, c) implies le(a, c) by {
        if a.official == b.official && b.official == c.official {
            text_le_transitive(a.name, b.name, c.name);
        }
    }
}

/// Builds installed by hand are listed before Valve's own.
pub proof fn custom_builds_come_first(entries: Seq<EntryModel>, i: int, j: int)
    requires
        0 <= i < j < by_rank::<ProtonBuild>(builds_among(entries)).len(),
        !by_rank::<ProtonBuild>(builds_among(entries))[j].official,
    ensures
        !by_rank::<ProtonBuild>(builds_among(entries))[i].official,
{
    let le = |a: BuildModel, b: BuildModel| <ProtonBuild as Ranked>::le(a, b);
    builds_can_be_ranked();
    sorting_orders(builds_among(entries), le);
    let out = by_rank::<ProtonBuild>(builds_among(entries));
    assert(in_order(out, le));
    assert(le(out[i], out[j]));
}

/// Prefixes are listed largest first.
pub proof fn prefixes_are_largest_first(
    entries: Seq<PrefixEntryModel>,
    names: Map<Seq<char>, Seq<char>>,
    i: int,
    j: int,
)
    requires
        0 <= i < j < by_rank::<Prefix>(prefixes_among(entries, names)).len(),
    ensures
        by_rank::<Prefix>(prefixes_among(entries, names))[i].bytes >= by_rank::<Prefix>(
            prefixes_among(entries, names),
        )[j].bytes,
{
    let le = |a: PrefixModel, b: PrefixModel| <Prefix as Ranked>::le(a, b);
    let found = prefixes_among(entries, names);
    assert(ranks(le));
    sorting_orders(found, le);
    let out = by_rank::<Prefix>(found);
    assert(in_order(out, le));
    assert(le(out[i], out[j]));
}

proof fn lemma_builds_differ(entries: Seq<EntryModel>)
    ensures
        forall|i: int, j: int|
            0 <= i < j < builds_among(entries).len() ==> (#[trigger] builds_among(entries)[i]).name
                != (#[trigger] builds_among(entries)[j]).name,
    decreases entries.len(),
{
    if entries.len() > 0 {
        lemma_builds_differ(entries.drop_last());
        let before = builds_among(entries.drop_last());
        let all = builds_among(entries);
        assert forall|i: int, j: int| 0 <= i < j < all.len() implies (#[trigger] all[i]).name != (
        #[trigger] all[j]).name by {
            assert(all[i] == before[i]);
            if j < before.len() {
                assert(all[j] == before[j]);
            }
        }
    }
}

/// A build that is in two places is listed once: no two builds of the list have the same name.
pub proof fn builds_are_listed_once(entries: Seq<EntryModel>, i: int, j: int)
    requires
        0 <= i < j < by_rank::<ProtonBuild>(builds_among(entries)).len(),
    ensures
        by_rank::<ProtonBuild>(builds_among(entries))[i].name != by_rank::<ProtonBuild>(
            builds_among(entries),
        )[j].name,
{
    let found = builds_among(entries);
    let le = |a: BuildModel, b: BuildModel| <ProtonBuild as Ranked>::le(a, b);
    builds_can_be_ranked();
    sorting_orders(found, le);
    lemma_builds_differ(entries);
    items_stay_apart(
        found,
        by_rank::<ProtonBuild>(found),
        |b: BuildModel| b.name,
        i,
        j,
    );
}

proof fn lemma_prefixes_differ(
    entries: Seq<PrefixEntryModel>,
    names: Map<Seq<char>, Seq<char>>,
)
    ensures
        forall|i: int, j: int|
            0 <= i < j < prefixes_among(entries, names).len() ==> (#[trigger] prefixes_among(
                entries,
                names,
            )[i]).app_id != (#[trigger] prefixes_among(entries, names)[j]).app_id,
    decreases entries.len(),
{
    if entries.len() > 0 {
        lemma_prefixes_differ(entries.drop_last(), names);
    }
}

/// Each game's prefix is listed once: no two prefixes of the list have the same app id.
pub proof fn prefixes_are_listed_once(
    entries: Seq<PrefixEntryModel>,
    names: Map<Seq<char>, Seq<char>>,
    i: int,
    j: int,
)
    requires
        0 <= i < j < by_rank::<Prefix>(prefixes_among(entries, names)).len(),
    ensures
        by_rank::<Prefix>(prefixes_among(entries, names))[i].app_id != by_rank::<Prefix>(
            prefixes_among(entries, names),
        )[j].app_id,
{
    let found = prefixes_among(entries, names);
    let le = |a: PrefixModel, b: PrefixModel| <Prefix as Ranked>::le(a, b);
    assert(ranks(le));
    sorting_orders(found, le);
    lemma_prefixes_differ(entries, names);
    items_stay_apart(found, by_rank::<Prefix>(found), |p: PrefixModel| p.app_id, i, j);
}

proof fn lemma_same_tool(i: int, k: int)
    requires
        0 <= i < tool_list().len(),
        0 <= k < tool_list().len(),
        tool_list()[i].name == tool_list()[k].name,
    ensures
        i == k,
{
    lemma_names_differ();
    if i < k {
        assert(tool_list()[i].name != tool_list()[k].name);
    } else if k < i {
        assert(tool_list()[k].name != tool_list()[i].name);
    }
}

/// Whatever entry of the catalogue a tool is, it is installed by the package that holds it, told by the
/// program that it brings, where it brings one, and started from here only where that makes sense.
pub proof fn tools_come_from_their_packages(i: int)
    requires
        0 <= i < tool_list().len(),
    ensures
        tool_list()[i].name == "GameMode"@ ==> tool_list()[i].package == "gamemode"@ && tool_list()[i].binary
            == "gamemoderun"@ && tool_list()[i].kind == Kind::Performance && !tool_list()[i].launchable,
        tool_list()[i].name == "GameMode, 32-bit"@ ==> tool_list()[i].package == "lib32-gamemode"@ && tool_list()[i].binary
            == ""@ && tool_list()[i].kind == Kind::Performance && !tool_list()[i].launchable,
        tool_list()[i].name == "Gamescope"@ ==> tool_list()[i].package == "gamescope"@ && tool_list()[i].binary
            == "gamescope"@ && tool_list()[i].kind == Kind::Performance && !tool_list()[i].launchable,
        tool_list()[i].name == "MangoHud"@ ==> tool_list()[i].package == "mangohud"@ && tool_list()[i].binary
            == "mangohud"@ && tool_list()[i].kind == Kind::Overlay && !tool_list()[i].launchable,
        tool_list()[i].name == "MangoHud, 32-bit"@ ==> tool_list()[i].package == "lib32-mangohud"@ && tool_list()[i].binary
            == ""@ && tool_list()[i].kind == Kind::Overlay && !tool_list()[i].launchable,
        tool_list()[i].name == "GOverlay"@ ==> tool_list()[i].package == "goverlay"@ && tool_list()[i].binary
            == "goverlay"@ && tool_list()[i].kind == Kind::Overlay && tool_list()[i].launchable,
        tool_list()[i].name == "vkBasalt"@ ==> tool_list()[i].package == "vkbasalt"@ && tool_list()[i].binary
            == ""@ && tool_list()[i].kind == Kind::Overlay && !tool_list()[i].launchable,
        tool_list()[i].name == "CoreCtrl"@ ==> tool_list()[i].package == "corectrl"@ && tool_list()[i].binary
            == "corectrl"@ && tool_list()[i].kind == Kind::Overlay && tool_list()[i].launchable,
        tool_list()[i].name == "Steam"@ ==> tool_list()[i].package == "steam"@ && tool_list()[i].binary
            == "steam"@ && tool_list()[i].kind == Kind::Compatibility && tool_list()[i].launchable,
        tool_list()[i].name == "Lutris"@ ==> tool_list()[i].package == "lutris"@ && tool_list()[i].binary
            == "lutris"@ && tool_list()[i].kind == Kind::Compatibility && tool_list()[i].launchable,
        tool_list()[i].name == "Heroic"@ ==> tool_list()[i].package == "heroic-games-launcher"@ && tool_list()[i].binary
            == "heroic"@ && tool_list()[i].kind == Kind::Compatibility && tool_list()[i].launchable,
        tool_list()[i].name == "Protontricks"@ ==> tool_list()[i].package == "protontricks"@ && tool_list()[i].binary
            == "protontricks"@ && tool_list()[i].kind == Kind::Compatibility && tool_list()[i].launchable,
        tool_list()[i].name == "Winetricks"@ ==> tool_list()[i].package == "winetricks"@ && tool_list()[i].binary
            == "winetricks"@ && tool_list()[i].kind == Kind::Compatibility && tool_list()[i].launchable,
        tool_list()[i].name == "Vulkan tools"@ ==> tool_list()[i].package == "vulkan-tools"@ && tool_list()[i].binary
            == "vulkaninfo"@ && tool_list()[i].kind == Kind::Diagnostics && !tool_list()[i].launchable,
        tool_list()[i].name == "Mesa utilities"@ ==> tool_list()[i].package == "mesa-utils"@ && tool_list()[i].binary
            == "glxinfo"@ && tool_list()[i].kind == Kind::Diagnostics && !tool_list()[i].launchable,
        tool_list()[i].name == "inxi"@ ==> tool_list()[i].package == "inxi"@ && tool_list()[i].binary
            == "inxi"@ && tool_list()[i].kind == Kind::Diagnostics && !tool_list()[i].launchable,
        tool_list().len() == 16,
{
    lemma_names_differ();
    assert(tool_list()[0].name == "GameMode"@);
    if tool_list()[i].name == "GameMode"@ {
        lemma_same_tool(i, 0);
    }
    assert(tool_list()[1].name == "GameMode, 32-bit"@);
    if tool_list()[i].name == "GameMode, 32-bit"@ {
        lemma_same_tool(i, 1);
    }
    assert(tool_list()[2].name == "Gamescope"@);
    if tool_list()[i].name == "Gamescope"@ {
        lemma_same_tool(i, 2);
    }
    assert(tool_list()[3].name == "MangoHud"@);
    if tool_list()[i].name == "MangoHud"@ {
        lemma_same_tool(i, 3);
    }
    assert(tool_list()[4].name == "MangoHud, 32-bit"@);
    if tool_list()[i].name == "MangoHud, 32-bit"@ {
        lemma_same_tool(i, 4);
    }
    assert(tool_list()[5].name == "GOverlay"@);
    if tool_list()[i].name == "GOverlay"@ {
        lemma_same_tool(i, 5);
    }
    assert(tool_list()[6].name == "vkBasalt"@);
    if tool_list()[i].name == "vkBasalt"@ {
        lemma_same_tool(i, 6);
    }
    assert(tool_list()[7].name == "CoreCtrl"@);
    if tool_list()[i].name == "CoreCtrl"@ {
        lemma_same_tool(i, 7);
    }
    assert(tool_list()[8].name == "Steam"@);
    if tool_list()[i].name == "Steam"@ {
        lemma_same_tool(i, 8);
    }
    assert(tool_list()[9].name == "Lutris"@);
    if tool_list()[i].name == "Lutris"@ {
        lemma_same_tool(i, 9);
    }
    assert(tool_list()[10].name == "Heroic"@);
    if tool_list()[i].name == "Heroic"@ {
        lemma_same_tool(i, 10);
    }
    assert(tool_list()[11].name == "Protontricks"@);
    if tool_list()[i].name == "Protontricks"@ {
        lemma_same_tool(i, 11);
    }
    assert(tool_list()[12].name == "Winetricks"@);
    if tool_list()[i].name == "Winetricks"@ {
        lemma_same_tool(i, 12);
    }
    assert(tool_list()[13].name == "Vulkan tools"@);
    if tool_list()[i].name == "Vulkan tools"@ {
        lemma_same_tool(i, 13);
    }
    assert(tool_list()[14].name == "Mesa utilities"@);
    if tool_list()[i].name == "Mesa utilities"@ {
        lemma_same_tool(i, 14);
    }
    assert(tool_list()[15].name == "inxi"@);
    if tool_list()[i].name == "inxi"@ {
        lemma_same_tool(i, 15);
    }
}

/// The diagnostics only print and end: each is run with the option that makes it do so.
pub proof fn diagnostics_only_print(i: int)
    requires
        0 <= i < probe_list().len(),
    ensures
        probe_list().len() == 3,
        probe_list()[i].binary == "vulkaninfo"@ ==> probe_list()[i].args == seq!["--summary"@],
        probe_list()[i].binary == "glxinfo"@ ==> probe_list()[i].args == seq!["-B"@],
        probe_list()[i].binary == "inxi"@ ==> probe_list()[i].args == seq!["-Gxx"@],
        probe_list()[i].binary == "vulkaninfo"@ || probe_list()[i].binary == "glxinfo"@ || probe_list()[i].binary
            == "inxi"@,
{
    reveal_strlit("vulkaninfo");
    reveal_strlit("glxinfo");
    reveal_strlit("inxi");
    assert("vulkaninfo"@.len() == 10 && "glxinfo"@.len() == 7 && "inxi"@.len() == 4);
}

/// A build is listed for every name that some directory of builds has: one that was installed by hand
/// whatever it is called, and one among the games only where it is called a Proton. A file is none.
pub proof fn every_build_is_listed(entries: Seq<EntryModel>, name: Seq<char>)
    ensures
        has_build(builds_among(entries), name) <==> exists|i: int|
            0 <= i < entries.len() && (#[trigger] entries[i]).name == name && entries[i].is_dir && (
            !entries[i].official || "Proton"@.is_prefix_of(name)),
    decreases entries.len(),
{
    if entries.len() > 0 {
        let init = entries.drop_last();
        let e = entries.last();
        every_build_is_listed(init, name);
        let before = builds_among(init);
        let all = builds_among(entries);
        if has_build(all, name) {
            let k = choose|k: int| 0 <= k < all.len() && (#[trigger] all[k]).name == name;
            if k < before.len() {
                assert(before[k].name == name);
                assert(has_build(before, name));
                let i = choose|i: int|
                    0 <= i < init.len() && (#[trigger] init[i]).name == name && init[i].is_dir && (
                    !init[i].official || "Proton"@.is_prefix_of(name));
                assert(entries[i] == init[i]);
            } else {
                assert(entries[entries.len() - 1] == e);
            }
        }
        if exists|i: int|
            0 <= i < entries.len() && (#[trigger] entries[i]).name == name && entries[i].is_dir && (
            !entries[i].official || "Proton"@.is_prefix_of(name)) {
            let i = choose|i: int|
                0 <= i < entries.len() && (#[trigger] entries[i]).name == name && entries[i].is_dir && (
                !entries[i].official || "Proton"@.is_prefix_of(name));
            if i < init.len() {
                assert(init[i] == entries[i]);
                assert(has_build(before, name));
            }
            if has_build(before, name) {
                let k = choose|k: int| 0 <= k < before.len() && (#[trigger] before[k]).name == name;
                assert(all[k].name == name);
            } else {
                assert(is_build(e));
                assert(all[before.len() as int].name == name);
            }
        }
    }
}

/// A listed build stands where an entry of its name does, and is Valve's own where that entry is.
pub proof fn a_build_is_what_its_entry_is(entries: Seq<EntryModel>, k: int)
    requires
        0 <= k < builds_among(entries).len(),
    ensures
        exists|i: int|
            0 <= i < entries.len() && is_build(#[trigger] entries[i]) && builds_among(entries)[k]
                == (BuildModel {
                name: entries[i].name,
                official: entries[i].official,
                path: entries[i].path,
            }),
    decreases entries.len(),
{
    if entries.len() > 0 {
        let init = entries.drop_last();
        let before = builds_among(init);
        if k < before.len() {
            a_build_is_what_its_entry_is(init, k);
            let i = choose|i: int|
                0 <= i < init.len() && is_build(#[trigger] init[i]) && before[k] == (BuildModel {
                    name: init[i].name,
                    official: init[i].official,
                    path: init[i].path,
                });
            assert(entries[i] == init[i]);
            assert(builds_among(entries)[k] == before[k]);
        } else {
            assert(is_build(entries[entries.len() - 1]));
        }
    }
}

/// A prefix is listed for every directory that is named by a number, with the size it has, where it stands,
/// and the name of its game where the library knows it; nothing else is one.
pub proof fn every_prefix_is_listed(
    entries: Seq<PrefixEntryModel>,
    names: Map<Seq<char>, Seq<char>>,
    e: PrefixEntryModel,
)
    ensures
        e.is_dir && all_digits(e.name) && (forall|i: int|
            0 <= i < prefixes_among(entries, names).len() ==> (#[trigger] prefixes_among(
                entries,
                names,
            )[i]).app_id != e.name) ==> prefixes_among(entries.push(e), names) == prefixes_among(
            entries,
            names,
        ).push(
            PrefixModel {
                app_id: e.name,
                game: if names.contains_key(e.name) {
                    Some(names[e.name])
                } else {
                    None
                },
                path: e.path,
                bytes: e.bytes,
            },
        ),
        !e.is_dir || !all_digits(e.name) ==> prefixes_among(entries.push(e), names) == prefixes_among(
            entries,
            names,
        ),
        prefixes_among(Seq::empty(), names) == Seq::<PrefixModel>::empty(),
{
    assert(entries.push(e).drop_last() =~= entries);
}

/// A prefix is deleted only where every guard holds: it is named by a number, right below a directory
/// called `compatdata`, inside a Steam library, and it holds a prefix. Without any one of them nothing is.
pub proof fn every_guard_counts(path: Seq<char>, libraries: Seq<Seq<char>>, holds_prefix: bool)
    ensures
        may_be_deleted(path, libraries, holds_prefix) ==> {
            &&& holds_prefix
            &&& file_name(path) is Some
            &&& forall|i: int|
                0 <= i < file_name(path)->0.len() ==> '0' <= #[trigger] (file_name(path)->0)[i] <= '9'
            &&& path_parts(path).len() >= 2
            &&& path_parts(path)[path_parts(path).len() - 2] == "compatdata"@
            &&& exists|i: int| 0 <= i < libraries.len() && is_within(path, #[trigger] libraries[i])
        },
        !may_be_deleted(path, libraries, false),
{
}

} // verus!
