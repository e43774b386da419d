//! Screen sharing: what it needs, and what this desktop has.
//!
//! Sharing a screen goes through one path on Wayland: an application asks `xdg-desktop-portal` for a
//! ScreenCast session, a portal backend asks the compositor to capture, and the frames come back
//! over PipeWire. All three pieces have to be there. The Huginn compositor implements no capture
//! protocol, so no combination of packages makes a call see the screen; nothing here offers a fix
//! that cannot be delivered.
use vstd::prelude::*;
use crate::capture::{Recording, RecordingModel};
use crate::checks::{
    advisory_check, good_check, problem_check, str_texts, Check, CheckModel, Fix, FixModel, State,
};
use crate::collections::NameSet;
use crate::drivers::{is_process, process_running, Process};
use crate::lists::{
    first_where, lemma_filter_map_step, lemma_filter_step, lemma_first_is, lemma_first_none,
};
use crate::number::{equal_but_case, same_but_case};
use crate::order::{
    by_rank, in_order, sort, sorting_orders, text_le, text_le_antisymmetric, text_le_transitive,
    texts_can_be_ranked, Ranked,
};
use crate::path::{extension, extension_of, file_name, name_of_path, stem, stem_of};
use crate::text::{
    after_prefix, cat2, cat3, chars_of, equal, has_char, join, joined, lines, lines_of, pieces,
    reads, single, split, string_of, strip_prefix, texts, trim, trimmed,
};
use crate::tune::{final_line, last_line};

verus! {

/// Where backends declare what they can do.
pub fn portal_dirs() -> (r: Vec<&'static str>)
    ensures
        str_texts(r@) == seq![
            "/usr/share/xdg-desktop-portal/portals"@,
            "/usr/local/share/xdg-desktop-portal/portals"@,
        ],
{
    let dirs = vec![
        "/usr/share/xdg-desktop-portal/portals",
        "/usr/local/share/xdg-desktop-portal/portals",
    ];
    assert(str_texts(dirs@) =~= seq![
        "/usr/share/xdg-desktop-portal/portals"@,
        "/usr/local/share/xdg-desktop-portal/portals"@,
    ]);
    dirs
}

/// A file in a directory of portals, with its text where it could be read.
#[derive(Debug)]
pub struct PortalFile {
    pub path: String,
    pub text: Option<String>,
}

impl DeepView for PortalFile {
    type V = (Seq<char>, Option<Seq<char>>);

    open spec fn deep_view(&self) -> (Seq<char>, Option<Seq<char>>) {
        (self.path@, self.text.deep_view())
    }
}

/// An entry of a semicolon-separated list is this one.
pub open spec fn lists(list: Seq<char>, interface: Seq<char>) -> bool {
    exists|i: int|
        0 <= i < split(list, ';').len() && trim(#[trigger] split(list, ';')[i]) == interface
}

/// A line lists the interfaces of a portal, and this one among them.
pub open spec fn line_declares(line: Seq<char>, interface: Seq<char>) -> bool {
    match strip_prefix(trim(line), "Interfaces="@) {
        Some(list) => lists(list, interface),
        None => false,
    }
}

/// A portal file declares an interface.
pub open spec fn declares(text: Seq<char>, interface: Seq<char>) -> bool {
    exists|i: int|
        0 <= i < lines(text).len() && line_declares(#[trigger] lines(text)[i], interface)
}

fn is_listed(list: &[char], interface: &str) -> (r: bool)
    ensures
        r == lists(list@, interface@),
{
    let all = pieces(list, ';');
    let ghost every = texts(all@);
    let mut i: usize = 0;
    while i < all.len()
        invariant
            i <= all.len(),
            every == texts(all@),
            every == split(list@, ';'),
            forall|j: int| 0 <= j < i ==> trim(#[trigger] every[j]) != interface@,
        decreases all.len() - i,
    {
        assert(every[i as int] == all@[i as int]@);
        if reads(trimmed(all[i]), interface) {
            return true;
        }
        i = i + 1;
    }
    false
}

/// Whether a portal file's `Interfaces=` line names an interface. The list is split and compared
/// whole, so that `ScreenCast` is not found inside `ScreenCastFoo`.
pub fn declares_interface(text: &str, interface: &str) -> (r: bool)
    ensures
        r == declares(text@, interface@),
{
    let chars = chars_of(text);
    let all = lines_of(&chars);
    let ghost every = texts(all@);
    let mark = chars_of("Interfaces=");
    let mut i: usize = 0;
    while i < all.len()
        invariant
            i <= all.len(),
            every == texts(all@),
            every == lines(text@),
            mark@ == "Interfaces="@,
            forall|j: int| 0 <= j < i ==> !line_declares(#[trigger] every[j], interface@),
        decreases all.len() - i,
    {
        assert(every[i as int] == all@[i as int]@);
        if let Some(list) = after_prefix(trimmed(all[i]), &mark) {
            if is_listed(list, interface) {
                return true;
            }
        }
        i = i + 1;
    }
    false
}

/// A file is a portal's and declares an interface.
pub open spec fn offers(file: (Seq<char>, Option<Seq<char>>), interface: Seq<char>) -> bool {
    &&& file_name(file.0) is Some
    &&& extension(file_name(file.0)->0) == Some("portal"@)
    &&& file.1 is Some
    &&& declares(file.1->0, interface)
}

/// The backend that implements an interface: the first file that declares it, without its
/// extension.
pub open spec fn backend_for(
    files: Seq<(Seq<char>, Option<Seq<char>>)>,
    interface: Seq<char>,
) -> Option<Seq<char>> {
    match first_where(files, |file: (Seq<char>, Option<Seq<char>>)| offers(file, interface)) {
        Some(file) => Some(stem(file_name(file.0)->0)),
        None => None,
    }
}

/// The installed portal backend that implements an interface, if any.
pub fn portal_backend_for(interface: &str, files: &Vec<PortalFile>) -> (r: Option<String>)
    ensures
        r.deep_view() == backend_for(files.deep_view(), interface@),
{
    let ghost every = files.deep_view();
    let ghost p = |file: (Seq<char>, Option<Seq<char>>)| offers(file, interface@);
    let mut i: usize = 0;
    while i < files.len()
        invariant
            i <= files.len(),
            every == files.deep_view(),
            p == (|file: (Seq<char>, Option<Seq<char>>)| offers(file, interface@)),
            forall|j: int| 0 <= j < i ==> !p(#[trigger] every[j]),
        decreases files.len() - i,
    {
        assert(every[i as int] == files@[i as int].deep_view());
        if let Some(name) = name_of_path(&files[i].path) {
            if let Some(ext) = extension_of(&name) {
                if equal(&ext, "portal") {
                    if let Some(text) = &files[i].text {
                        if declares_interface(text, interface) {
                            proof {
                                lemma_first_is(every, p, i as int);
                            }
                            return Some(stem_of(&name));
                        }
                    }
                }
            }
        }
        i = i + 1;
    }
    proof {
        lemma_first_none(every, p);
    }
    None
}

/// A process of this name is among some.
pub open spec fn runs(entries: Seq<(Seq<char>, Option<Seq<char>>)>, name: Seq<char>) -> bool {
    exists|i: int| 0 <= i < entries.len() && is_process(#[trigger] entries[i], name)
}

/// Whether PipeWire is running, which is how captured frames and game audio both travel.
pub fn pipewire_running(processes: &Vec<Process>) -> (r: bool)
    ensures
        r == runs(processes.deep_view(), "pipewire"@),
{
    process_running("pipewire", processes)
}

/// A list without the items that repeat the one before them.
pub open spec fn deduped(s: Seq<Seq<char>>) -> Seq<Seq<char>>
    decreases s.len(),
{
    if s.len() == 0 {
        Seq::empty()
    } else if s.len() > 1 && s[s.len() - 2] == s.last() {
        deduped(s.drop_last())
    } else {
        deduped(s.drop_last()).push(s.last())
    }
}

/// The names of cameras that could be read, without the white space round them.
pub open spec fn camera_names(names: Seq<Option<Seq<char>>>) -> Seq<Seq<char>> {
    names.filter_map(
        |name: Option<Seq<char>>|
            match name {
                Some(text) => Some(trim(text)),
                None => None,
            },
    )
}

/// The cameras, in order and each once.
pub open spec fn camera_list(names: Seq<Option<Seq<char>>>) -> Seq<Seq<char>> {
    deduped(by_rank::<String>(camera_names(names)))
}

/// The cameras, for the picture-in-picture half of streaming, from the name of each video device
/// where it could be read.
pub fn cameras(names: &Vec<Option<String>>) -> (r: Vec<String>)
    ensures
        r.deep_view() == camera_list(names.deep_view()),
{
    let ghost every = names.deep_view();
    let ghost f = |name: Option<Seq<char>>|
        match name {
            Some(text) => Some(trim(text)),
            None => None,
        };
    let mut found: Vec<String> = Vec::new();
    let mut i: usize = 0;
    while i < names.len()
        invariant
            i <= names.len(),
            every == names.deep_view(),
            f == (|name: Option<Seq<char>>|
                match name {
                    Some(text) => Some(trim(text)),
                    None => None,
                }),
            found.deep_view() == every.take(i as int).filter_map(f),
        decreases names.len() - i,
    {
        proof {
            lemma_filter_map_step(every, i as int, f);
            assert(every[i as int] == names@[i as int].deep_view());
        }
        let ghost before = found.deep_view();
        if let Some(text) = &names[i] {
            let chars = chars_of(text);
            let name = string_of(trimmed(&chars));
            let ghost item = name@;
            found.push(name);
            assert(found.deep_view() =~= before.push(item));
        }
        i = i + 1;
    }
    assert(every.take(i as int) =~= every);
    let ordered = sort(found);
    let ghost all = ordered.deep_view();
    let mut out: Vec<String> = Vec::new();
    let mut k: usize = 0;
    assert(out.deep_view() =~= Seq::empty());
    while k < ordered.len()
        invariant
            k <= ordered.len(),
            all == ordered.deep_view(),
            out.deep_view() == deduped(all.take(k as int)),
        decreases ordered.len() - k,
    {
        let ghost next = all.take(k + 1);
        assert(next.drop_last() =~= all.take(k as int));
        assert(next.last() == ordered@[k as int]@);
        let repeated: bool = k > 0 && equal(&ordered[k - 1], &ordered[k]);
        assert(k > 0 ==> next[k - 1] == ordered@[k - 1]@);
        let ghost before = out.deep_view();
        if !repeated {
            out.push(ordered[k].clone());
            assert(out.deep_view() =~= before.push(ordered@[k as int]@));
        }
        k = k + 1;
    }
    assert(all.take(k as int) =~= all);
    out
}

/// The kernel's list of sound cards names one.
pub open spec fn names_a_card(text: Seq<char>) -> bool {
    exists|i: int| 0 <= i < lines(text).len() && (#[trigger] lines(text)[i]).contains('[')
}

/// Whether there is a sound card, by the kernel's list of them: a machine with none has no
/// microphone whatever PipeWire says.
pub fn has_microphone(cards: Option<&str>) -> (r: bool)
    ensures
        r == (cards is Some && names_a_card(cards->0@)),
{
    match cards {
        Some(text) => {
            let chars = chars_of(text);
            let all = lines_of(&chars);
            let ghost every = texts(all@);
            let mut i: usize = 0;
            while i < all.len()
                invariant
                    i <= all.len(),
                    cards == Some(text),
                    every == texts(all@),
                    every == lines(text@),
                    forall|j: int| 0 <= j < i ==> !(#[trigger] every[j]).contains('['),
                decreases all.len() - i,
            {
                assert(every[i as int] == all@[i as int]@);
                if has_char(all[i], '[') {
                    return true;
                }
                i = i + 1;
            }
            false
        },
        None => false,
    }
}

/// The capture applications that are installed.
pub open spec fn installed_apps(commands: Set<Seq<char>>) -> Seq<Seq<char>> {
    seq!["obs"@, "wf-recorder"@, "gpu-screen-recorder"@, "kooha"@].filter(
        |name: Seq<char>| commands.contains(name),
    )
}

/// Screen-capture software that is installed and would use the portal.
pub fn capture_applications(commands: &NameSet) -> (r: Vec<String>)
    ensures
        r.deep_view() == installed_apps(commands@),
{
    let known = vec!["obs", "wf-recorder", "gpu-screen-recorder", "kooha"];
    let ghost every = seq!["obs"@, "wf-recorder"@, "gpu-screen-recorder"@, "kooha"@];
    let ghost p = |name: Seq<char>| commands@.contains(name);
    assert(str_texts(known@) =~= every);
    let mut out: Vec<String> = Vec::new();
    let mut i: usize = 0;
    proof {
        reveal(Seq::filter);
        assert(out.deep_view() =~= every.take(0).filter(p));
    }
    while i < known.len()
        invariant
            i <= known.len(),
            every == str_texts(known@),
            p == (|name: Seq<char>| commands@.contains(name)),
            out.deep_view() == every.take(i as int).filter(p),
        decreases known.len() - i,
    {
        proof {
            lemma_filter_step(every, i as int, p);
            assert(every[i as int] == known@[i as int]@);
        }
        let ghost before = out.deep_view();
        if commands.contains(known[i]) {
            out.push(String::from_str(known[i]));
            assert(out.deep_view() =~= before.push(known@[i as int]@));
        }
        i = i + 1;
    }
    assert(every.take(i as int) =~= every);
    out
}

/// What was read of the desktop that bears on sharing a screen.
#[derive(Debug)]
pub struct Desktop {
    /// Whether the portal stands at `/usr/libexec/xdg-desktop-portal`.
    pub portal_in_libexec: bool,
    /// Whether the portal stands at `/usr/lib/xdg-desktop-portal`.
    pub portal_in_lib: bool,
    /// The commands that are installed, of those asked for.
    pub commands: NameSet,
    /// The files in the directories of portals.
    pub portals: Vec<PortalFile>,
    pub processes: Vec<Process>,
    /// The name of each video device, where it could be read.
    pub video_devices: Vec<Option<String>>,
    /// The kernel's list of sound cards.
    pub sound_cards: Option<String>,
}

/// What was read of the desktop.
#[verifier::ext_equal]
pub struct DesktopModel {
    pub portal_in_libexec: bool,
    pub portal_in_lib: bool,
    pub commands: Set<Seq<char>>,
    pub portals: Seq<(Seq<char>, Option<Seq<char>>)>,
    pub processes: Seq<(Seq<char>, Option<Seq<char>>)>,
    pub video_devices: Seq<Option<Seq<char>>>,
    pub sound_cards: Option<Seq<char>>,
}

impl DeepView for Desktop {
    type V = DesktopModel;

    open spec fn deep_view(&self) -> DesktopModel {
        DesktopModel {
            portal_in_libexec: self.portal_in_libexec,
            portal_in_lib: self.portal_in_lib,
            commands: self.commands@,
            portals: self.portals.deep_view(),
            processes: self.processes.deep_view(),
            video_devices: self.video_devices.deep_view(),
            sound_cards: self.sound_cards.deep_view(),
        }
    }
}

/// The portal is there.
pub open spec fn has_portal(d: DesktopModel) -> bool {
    d.portal_in_libexec || d.portal_in_lib || d.commands.contains("xdg-desktop-portal"@)
}

/// Whether the portal is there.
pub open spec fn portal_status(d: DesktopModel) -> CheckModel {
    if has_portal(d) {
        good_check(
            "Desktop portal"@,
            "xdg-desktop-portal is installed. It is what an application asks when it wants a file, a screen or a camera."@,
        )
    } else {
        problem_check(
            "Desktop portal"@,
            "xdg-desktop-portal is not installed. Without it a sandboxed or Flatpak application cannot open a file, let alone a screen."@,
            Some(FixModel::Install(seq!["xdg-desktop-portal"@])),
        )
    }
}

/// Whether a backend can be asked for a screen.
pub open spec fn backend_status(d: DesktopModel) -> CheckModel {
    match backend_for(d.portals, "org.freedesktop.impl.portal.ScreenCast"@) {
        Some(backend) => good_check(
            "Screen-sharing backend"@,
            backend
                + " provides the ScreenCast portal, so an application can ask for a screen."@,
        ),
        None => problem_check(
            "Screen-sharing backend"@,
            "No installed portal backend provides ScreenCast, and Huginn offers no capture protocol for one to use — it draws the screen and records it itself. Sharing a screen into a call is therefore not possible on this desktop yet; it needs support in the compositor, not a package. Recording works: see the Capture page."@,
            Some(
                FixModel::Manual(
                    "Nothing to install. Record with Super+Print and share the file, or share a window from inside the application when it offers that."@,
                ),
            ),
        ),
    }
}

/// Whether PipeWire is running.
pub open spec fn pipewire_status(d: DesktopModel) -> CheckModel {
    if runs(d.processes, "pipewire"@) {
        good_check(
            "PipeWire"@,
            "Running. Game audio, voice chat and — once a compositor can capture — screen frames all travel over it."@,
        )
    } else {
        problem_check(
            "PipeWire"@,
            "PipeWire is not running. Voice chat and game audio both go through it."@,
            Some(FixModel::Install(seq!["pipewire"@, "pipewire-pulse"@, "wireplumber"@])),
        )
    }
}

/// Whether there is a camera.
pub open spec fn camera_status(d: DesktopModel) -> CheckModel {
    let found = camera_list(d.video_devices);
    if found.len() == 0 {
        advisory_check(
            "Camera"@,
            "No camera was found. Only needed if you want your face on the stream."@,
            None,
        )
    } else {
        good_check("Camera"@, "Found: "@ + join(found, ", "@) + "."@)
    }
}

/// Whether there is a microphone.
pub open spec fn microphone_status(d: DesktopModel) -> CheckModel {
    if d.sound_cards is Some && names_a_card(d.sound_cards->0) {
        good_check("Microphone"@, "A sound device with capture is present."@)
    } else {
        advisory_check(
            "Microphone"@,
            "No sound card was found, so there is nothing to talk into."@,
            None,
        )
    }
}

/// Which capture applications are installed.
pub open spec fn software_status(d: DesktopModel) -> CheckModel {
    let apps = installed_apps(d.commands);
    advisory_check(
        "Capture software"@,
        if apps.len() == 0 {
            "No screen-capture application is installed. On this desktop the built-in recorder is the one that works; the others rely on a capture protocol Huginn does not offer."@
        } else {
            "Installed: "@ + join(apps, ", "@)
                + ". These rely on the ScreenCast portal, so they cannot capture the screen on this desktop yet."@
        },
        None,
    )
}

/// The readiness list for the Sharing page.
pub open spec fn sharing_list(d: DesktopModel) -> Seq<CheckModel> {
    seq![
        portal_status(d),
        backend_status(d),
        pipewire_status(d),
        camera_status(d),
        microphone_status(d),
        software_status(d),
    ]
}

fn portal_check(desktop: &Desktop) -> (r: Check)
    ensures
        r.deep_view() == portal_status(desktop.deep_view()),
{
    let installed: bool = desktop.portal_in_libexec || desktop.portal_in_lib
        || desktop.commands.contains("xdg-desktop-portal");
    if installed {
        Check::good(
            "Desktop portal",
            "xdg-desktop-portal is installed. It is what an application asks when it wants a file, a screen or a camera.",
        )
    } else {
        Check::problem(
            "Desktop portal",
            "xdg-desktop-portal is not installed. Without it a sandboxed or Flatpak application cannot open a file, let alone a screen.",
            Some(Fix::Install(single("xdg-desktop-portal"))),
        )
    }
}

fn backend_check(desktop: &Desktop) -> (r: Check)
    ensures
        r.deep_view() == backend_status(desktop.deep_view()),
{
    match portal_backend_for("org.freedesktop.impl.portal.ScreenCast", &desktop.portals) {
        Some(backend) => Check::good(
            "Screen-sharing backend",
            &cat2(
                &backend,
                " provides the ScreenCast portal, so an application can ask for a screen.",
            ),
        ),
        None => Check::problem(
            "Screen-sharing backend",
            "No installed portal backend provides ScreenCast, and Huginn offers no capture protocol for one to use — it draws the screen and records it itself. Sharing a screen into a call is therefore not possible on this desktop yet; it needs support in the compositor, not a package. Recording works: see the Capture page.",
            Some(
                Fix::Manual(
                    "Nothing to install. Record with Super+Print and share the file, or share a window from inside the application when it offers that.",
                ),
            ),
        ),
    }
}

fn pipewire_check(desktop: &Desktop) -> (r: Check)
    ensures
        r.deep_view() == pipewire_status(desktop.deep_view()),
{
    if pipewire_running(&desktop.processes) {
        Check::good(
            "PipeWire",
            "Running. Game audio, voice chat and — once a compositor can capture — screen frames all travel over it.",
        )
    } else {
        let mut packages: Vec<String> = Vec::new();
        packages.push(String::from_str("pipewire"));
        packages.push(String::from_str("pipewire-pulse"));
        packages.push(String::from_str("wireplumber"));
        assert(packages.deep_view() =~= seq!["pipewire"@, "pipewire-pulse"@, "wireplumber"@]);
        Check::problem(
            "PipeWire",
            "PipeWire is not running. Voice chat and game audio both go through it.",
            Some(Fix::Install(packages)),
        )
    }
}

/// The readiness list for the Sharing page.
pub fn checks(desktop: &Desktop) -> (r: Vec<Check>)
    ensures
        r.deep_view() == sharing_list(desktop.deep_view()),
{
    let mut list: Vec<Check> = Vec::new();
    list.push(portal_check(desktop));
    list.push(backend_check(desktop));
    list.push(pipewire_check(desktop));
    let found = cameras(&desktop.video_devices);
    list.push(
        if found.len() == 0 {
            Check::advisory(
                "Camera",
                "No camera was found. Only needed if you want your face on the stream.",
                None,
            )
        } else {
            Check::good("Camera", &cat3("Found: ", &joined(&found, ", "), "."))
        },
    );
    let cards: Option<&str> = match &desktop.sound_cards {
        Some(text) => Some(text.as_str()),
        None => None,
    };
    list.push(
        if has_microphone(cards) {
            Check::good("Microphone", "A sound device with capture is present.")
        } else {
            Check::advisory(
                "Microphone",
                "No sound card was found, so there is nothing to talk into.",
                None,
            )
        },
    );
    let apps = capture_applications(&desktop.commands);
    let detail: String = if apps.len() == 0 {
        String::from_str(
            "No screen-capture application is installed. On this desktop the built-in recorder is the one that works; the others rely on a capture protocol Huginn does not offer.",
        )
    } else {
        cat3(
            "Installed: ",
            &joined(&apps, ", "),
            ". These rely on the ScreenCast portal, so they cannot capture the screen on this desktop yet.",
        )
    };
    list.push(Check::advisory("Capture software", &detail, None));
    assert(list.deep_view() =~= sharing_list(desktop.deep_view()));
    list
}

/// A desktop that calls itself by one of Huginn's names.
pub open spec fn is_ours(desktop: Seq<char>) -> bool {
    exists|i: int|
        0 <= i < split(desktop, ':').len() && {
            let name = #[trigger] split(desktop, ':')[i];
            same_but_case(name, "huginn"@) || same_but_case(name, "raven"@)
        }
}

/// Whether the compositor drawing this session is Huginn. Another compositor has its own capture
/// support, and must not be told that its working screen share is impossible. The compositor's
/// socket says so, else the name of the desktop, else the processes that run.
pub fn compositor_is_huginn(
    has_socket: bool,
    desktop: Option<&str>,
    processes: &Vec<Process>,
) -> (r: bool)
    ensures
        r == (has_socket || (match desktop {
            Some(name) => is_ours(name@),
            None => runs(processes.deep_view(), "huginn"@),
        })),
{
    if has_socket {
        return true;
    }
    match desktop {
        Some(name) => {
            let chars = chars_of(name);
            let all = pieces(&chars, ':');
            let ghost every = texts(all@);
            let mut i: usize = 0;
            while i < all.len()
                invariant
                    i <= all.len(),
                    desktop == Some(name),
                    every == texts(all@),
                    every == split(name@, ':'),
                    forall|j: int|
                        0 <= j < i ==> !same_but_case(#[trigger] every[j], "huginn"@)
                            && !same_but_case(every[j], "raven"@),
                decreases all.len() - i,
            {
                assert(every[i as int] == all@[i as int]@);
                if equal_but_case(all[i], "huginn") || equal_but_case(all[i], "raven") {
                    return true;
                }
                i = i + 1;
            }
            false
        },
        None => process_running("huginn", processes),
    }
}

/// The keyboard shortcut the compositor records with, for the UI to show.
pub const RECORD_SHORTCUT: [&'static str; 2] = ["Super", "Print"];

/// A recording was written to in the ten seconds up to a time, and is not ended.
pub open spec fn is_running(r: RecordingModel, now: i128) -> bool {
    !r.complete && match r.modified {
        Some(m) => m <= now && now - m < 10_000_000_000,
        None => false,
    }
}

/// Whether a recording is in progress, judged by a recording without an end that has been written
/// to in the last few seconds. Times are in nanoseconds from 1970.
pub fn recording_in_progress(recordings: &Vec<Recording>, now: i128) -> (r: bool)
    ensures
        r == exists|i: int|
            0 <= i < recordings.deep_view().len() && is_running(
                #[trigger] recordings.deep_view()[i],
                now,
            ),
{
    let ghost every = recordings.deep_view();
    let mut i: usize = 0;
    while i < recordings.len()
        invariant
            i <= recordings.len(),
            every == recordings.deep_view(),
            forall|j: int| 0 <= j < i ==> !is_running(#[trigger] every[j], now),
        decreases recordings.len() - i,
    {
        assert(every[i as int] == recordings@[i as int].deep_view());
        if !recordings[i].complete {
            if let Some(m) = recordings[i].modified {
                if m <= now && (now < i128::MIN + 10_000_000_000 || m > now - 10_000_000_000) {
                    return true;
                }
            }
        }
        i = i + 1;
    }
    false
}

/// The command that restarts the portal service: a portal that started before the session is a
/// common cause of a share that does nothing at all. An error where there is no service manager.
pub fn restart_portal(systemctl: Option<&str>) -> (r: Result<Vec<String>, String>)
    ensures
        r is Ok == systemctl is Some,
        match r {
            Ok(command) => command.deep_view() == seq![
                systemctl->0@,
                "--user"@,
                "restart"@,
                "xdg-desktop-portal.service"@,
            ],
            Err(message) => message@ == "systemctl is not available"@,
        },
{
    match systemctl {
        Some(program) => {
            let mut command: Vec<String> = Vec::new();
            command.push(String::from_str(program));
            command.push(String::from_str("--user"));
            command.push(String::from_str("restart"));
            command.push(String::from_str("xdg-desktop-portal.service"));
            assert(command.deep_view() =~= seq![
                program@,
                "--user"@,
                "restart"@,
                "xdg-desktop-portal.service"@,
            ]);
            Ok(command)
        },
        None => Err(String::from_str("systemctl is not available")),
    }
}

/// What is said where the command could not be run.
pub fn restart_failure(error: &str) -> (r: String)
    ensures
        r@ == "Could not restart the portal: "@ + error@,
{
    cat2("Could not restart the portal: ", error)
}

/// What came of restarting the portal: where it failed, the last line that says anything.
pub fn restart_outcome(success: bool, stderr: &str) -> (r: Result<(), String>)
    ensures
        r is Ok == success,
        r is Err ==> r->Err_0@ == (match final_line(stderr@) {
            Some(line) => line,
            None => "The portal could not be restarted"@,
        }),
{
    if success {
        return Ok(());
    }
    match last_line(stderr) {
        Some(line) => Err(line),
        None => Err(String::from_str("The portal could not be restarted")),
    }
}

// ---------------------------------------------------------------------------
// Laws
// ---------------------------------------------------------------------------

/// The sharing list covers every piece, whatever was read.
pub proof fn the_list_covers_every_piece(d: DesktopModel)
    ensures
        sharing_list(d).map_values(|c: CheckModel| c.title) == seq![
            "Desktop portal"@,
            "Screen-sharing backend"@,
            "PipeWire"@,
            "Camera"@,
            "Microphone"@,
            "Capture software"@,
        ],
{
    assert(sharing_list(d).map_values(|c: CheckModel| c.title) =~= seq![
        "Desktop portal"@,
        "Screen-sharing backend"@,
        "PipeWire"@,
        "Camera"@,
        "Microphone"@,
        "Capture software"@,
    ]);
}

/// The backend's only fix is advice: no package makes a compositor without a capture protocol give
/// away the screen.
pub proof fn no_fix_that_cannot_be_delivered(d: DesktopModel)
    ensures
        backend_status(d).fix is None || backend_status(d).fix->0 is Manual,
        backend_status(d).state == State::Problem ==> backend_status(d).fix is Some,
{
}

/// A file without a line that lists interfaces declares none.
pub proof fn no_list_declares_nothing(text: Seq<char>, interface: Seq<char>)
    requires
        forall|i: int|
            0 <= i < lines(text).len() ==> !"Interfaces="@.is_prefix_of(
                trim(#[trigger] lines(text)[i]),
            ),
    ensures
        !declares(text, interface),
{
}

proof fn lemma_deduped(s: Seq<Seq<char>>)
    requires
        in_order(s, |a: Seq<char>, b: Seq<char>| <String as Ranked>::le(a, b)),
    ensures
        s.len() > 0 ==> deduped(s).len() > 0 && deduped(s).last() == s.last(),
        forall|i: int, j: int|
            0 <= i < j < deduped(s).len() ==> #[trigger] text_le(deduped(s)[i], deduped(s)[j])
                && deduped(s)[i] != deduped(s)[j],
        forall|x: Seq<char>| deduped(s).contains(x) <==> #[trigger] s.contains(x),
    decreases s.len(),
{
    let le = |a: Seq<char>, b: Seq<char>| <String as Ranked>::le(a, b);
    if s.len() > 0 {
        let init = s.drop_last();
        let last = s.last();
        assert(in_order(init, le)) by {
            assert forall|i: int, j: int| 0 <= i < j < init.len() implies le(
                #[trigger] init[i],
                #[trigger] init[j],
            ) by {
                assert(le(s[i], s[j]));
            }
        }
        lemma_deduped(init);
        let d = deduped(init);
        assert forall|x: Seq<char>| deduped(s).contains(x) <==> #[trigger] s.contains(x) by {
            assert(init.contains(x) <==> d.contains(x));
            if s.contains(x) {
                let k = choose|k: int| 0 <= k < s.len() && s[k] == x;
                if k < init.len() {
                    assert(init[k] == x);
                    let m = choose|m: int| 0 <= m < d.len() && d[m] == x;
                    assert(deduped(s)[m] == x);
                } else {
                    assert(deduped(s).last() == x);
                    assert(deduped(s)[deduped(s).len() - 1] == x);
                }
            }
            if deduped(s).contains(x) {
                let m = choose|m: int| 0 <= m < deduped(s).len() && deduped(s)[m] == x;
                if m < d.len() {
                    assert(d[m] == x);
                    let k = choose|k: int| 0 <= k < init.len() && init[k] == x;
                    assert(s[k] == x);
                } else {
                    assert(s[s.len() - 1] == x);
                }
            }
        }
        if s.len() > 1 && s[s.len() - 2] == last {
        } else if s.len() > 1 {
            let prev = s[s.len() - 2];
            assert(d.last() == prev);
            assert(le(s[s.len() - 2], s[s.len() - 1]));
            assert forall|i: int, j: int| 0 <= i < j < deduped(s).len() implies #[trigger] text_le(
                deduped(s)[i],
                deduped(s)[j],
            ) && deduped(s)[i] != deduped(s)[j] by {
                if j < d.len() {
                    assert(text_le(d[i], d[j]));
                } else if i < d.len() - 1 {
                    assert(text_le(d[i], d[d.len() - 1]));
                    text_le_transitive(d[i], prev, last);
                    if d[i] == last {
                        text_le_antisymmetric(prev, last);
                    }
                }
            }
        }
    }
}

/// Cameras come in order, each name once, and exactly those that were read.
pub proof fn cameras_come_once_and_in_order(names: Seq<Option<Seq<char>>>)
    ensures
        forall|i: int, j: int|
            0 <= i < j < camera_list(names).len() ==> #[trigger] text_le(
                camera_list(names)[i],
                camera_list(names)[j],
            ) && camera_list(names)[i] != camera_list(names)[j],
        forall|x: Seq<char>|
            camera_list(names).contains(x) <==> #[trigger] camera_names(names).contains(x),
{
    let found = camera_names(names);
    let le = |a: Seq<char>, b: Seq<char>| <String as Ranked>::le(a, b);
    texts_can_be_ranked();
    sorting_orders(found, le);
    let ordered = by_rank::<String>(found);
    lemma_deduped(ordered);
    assert forall|x: Seq<char>|
        camera_list(names).contains(x) <==> #[trigger] found.contains(x) by {
        assert(ordered.contains(x) <==> camera_list(names).contains(x));
        ordered.to_multiset_ensures();
        found.to_multiset_ensures();
        assert(ordered.to_multiset().count(x) == found.to_multiset().count(x));
    }
}

/// The portal is there exactly where it stands in one of its two places or is a command; without it the
/// check is a problem, and the one package that brings it is offered.
pub proof fn sharing_starts_with_the_portal(d: DesktopModel)
    ensures
        sharing_list(d)[0].state == (if d.portal_in_libexec || d.portal_in_lib || d.commands.contains(
            "xdg-desktop-portal"@,
        ) {
            State::Good
        } else {
            State::Problem
        }),
        sharing_list(d)[0].state == State::Problem ==> sharing_list(d)[0].fix == Some(
            FixModel::Install(seq!["xdg-desktop-portal"@]),
        ),
{
}

/// A screen can be asked for exactly where some portal file that could be read declares the screen-cast
/// interface; the first such file names the backend.
pub proof fn a_screen_needs_a_backend(d: DesktopModel)
    ensures
        sharing_list(d)[1].state == State::Good <==> exists|i: int|
            0 <= i < d.portals.len() && offers(
                #[trigger] d.portals[i],
                "org.freedesktop.impl.portal.ScreenCast"@,
            ),
        sharing_list(d)[1].state == State::Good || sharing_list(d)[1].state == State::Problem,
{
    let p = |file: (Seq<char>, Option<Seq<char>>)|
        offers(file, "org.freedesktop.impl.portal.ScreenCast"@);
    crate::lists::the_first_is_found(d.portals, p);
    if backend_for(d.portals, "org.freedesktop.impl.portal.ScreenCast"@) is Some {
        let x = first_where(d.portals, p)->0;
        let k = choose|k: int|
            0 <= k < d.portals.len() && x == #[trigger] d.portals[k] && p(x) && forall|j: int|
                0 <= j < k ==> !p(#[trigger] d.portals[j]);
        assert(offers(d.portals[k], "org.freedesktop.impl.portal.ScreenCast"@));
    }
}

/// An interface is declared where it stands, whole, among those that a line lists between semicolons.
pub proof fn interfaces_are_declared_whole(interface: Seq<char>, before: Seq<char>, after: Seq<char>)
    requires
        interface.len() > 0,
        crate::text::is_tight(interface),
        !interface.contains(';'),
        !before.contains(';'),
    ensures
        lists(interface, interface),
        lists(interface.push(';') + after, interface),
        lists(before.push(';') + interface, interface),
        trim(before) != interface ==> !lists(before, interface),
{
    crate::text::tight_text_is_kept(interface);
    crate::text::parts_come_apart(interface, ';', after);
    crate::text::parts_come_apart(before, ';', interface);
    assert(split(interface, ';')[0] == interface);
    assert(split(interface.push(';') + after, ';')[0] == interface);
    let both = split(before.push(';') + interface, ';');
    assert(both =~= seq![before] + seq![interface]);
    assert(both[1] == interface);
    assert(trim(both[1]) == interface);
}

/// Sound and frames go through PipeWire: where no process of that name runs it is a problem, and the three
/// packages that bring it are offered.
pub proof fn sharing_needs_pipewire(d: DesktopModel)
    ensures
        sharing_list(d)[2].state == (if exists|i: int|
            0 <= i < d.processes.len() && is_process(#[trigger] d.processes[i], "pipewire"@) {
            State::Good
        } else {
            State::Problem
        }),
        sharing_list(d)[2].state == State::Problem ==> sharing_list(d)[2].fix == Some(
            FixModel::Install(seq!["pipewire"@, "pipewire-pulse"@, "wireplumber"@]),
        ),
{
}

/// A process is told by its directory, which is a number, and by the name that the kernel keeps for it.
pub proof fn processes_are_told_by_their_names(
    directory: Seq<char>,
    name: Seq<char>,
    other: Seq<char>,
)
    requires
        crate::text::is_tight(name),
    ensures
        is_process((directory, Some(name.push('\n'))), other) <==> crate::text::all_digits(directory)
            && name == other,
        !is_process((directory, None), other),
{
    let none = Seq::<char>::empty();
    assert(none + name + seq!['\n'] =~= name.push('\n'));
    crate::text::trimming_undoes_padding(none, name, seq!['\n']);
}

/// A camera and a microphone are optional, and so is capture software: where they are missing, nothing is
/// stopped and nothing is offered.
pub proof fn cameras_and_microphones_are_optional(d: DesktopModel)
    ensures
        sharing_list(d)[3].state == (if camera_list(d.video_devices).len() > 0 {
            State::Good
        } else {
            State::Advisory
        }),
        sharing_list(d)[4].state == (if d.sound_cards is Some && exists|i: int|
            0 <= i < lines(d.sound_cards->0).len() && (#[trigger] lines(d.sound_cards->0)[i]).contains(
                '[',
            ) {
            State::Good
        } else {
            State::Advisory
        }),
        sharing_list(d)[5].state == State::Advisory,
        sharing_list(d)[3].fix is None && sharing_list(d)[4].fix is None && sharing_list(d)[5].fix is None,
        sharing_list(d).len() == 6,
{
}

/// The capture applications that are looked for are listed exactly where they are installed.
pub proof fn capture_software_is_told_by_its_command(commands: Set<Seq<char>>, name: Seq<char>)
    ensures
        installed_apps(commands).contains(name) <==> commands.contains(name) && (name == "obs"@ || name
            == "wf-recorder"@ || name == "gpu-screen-recorder"@ || name == "kooha"@),
{
    let all = seq!["obs"@, "wf-recorder"@, "gpu-screen-recorder"@, "kooha"@];
    crate::lists::lemma_filter_members(all, |n: Seq<char>| commands.contains(n));
    assert(all[0] == "obs"@ && all[1] == "wf-recorder"@ && all[2] == "gpu-screen-recorder"@ && all[3]
        == "kooha"@);
}

/// A desktop is ours where one of the names it goes by is Huginn's or Raven's, in any case.
pub proof fn a_desktop_may_go_by_several_names(rest: Seq<char>)
    ensures
        is_ours("huginn"@),
        is_ours("raven"@),
        is_ours("Huginn"@.push(':') + rest),
        !rest.contains(':') && !same_but_case(rest, "huginn"@) && !same_but_case(rest, "raven"@)
            ==> !is_ours(rest),
{
    reveal_strlit("huginn");
    reveal_strlit("raven");
    reveal_strlit("Huginn");
    assert(!"huginn"@.contains(':')) by {
        assert forall|k: int| 0 <= k < 6 implies "huginn"@[k] != ':' by {}
    }
    assert(!"raven"@.contains(':')) by {
        assert forall|k: int| 0 <= k < 5 implies "raven"@[k] != ':' by {}
    }
    assert(!"Huginn"@.contains(':')) by {
        assert forall|k: int| 0 <= k < 6 implies "Huginn"@[k] != ':' by {}
    }
    crate::text::parts_come_apart("huginn"@, ':', rest);
    crate::text::parts_come_apart("raven"@, ':', rest);
    crate::text::parts_come_apart("Huginn"@, ':', rest);
    assert(split("huginn"@, ':')[0] == "huginn"@);
    assert(split("raven"@, ':')[0] == "raven"@);
    assert(split("Huginn"@.push(':') + rest, ':')[0] == "Huginn"@);
    assert(crate::text::ascii_lowercase("Huginn"@) =~= crate::text::ascii_lowercase("huginn"@));
    if !rest.contains(':') {
        crate::text::parts_come_apart(rest, ':', rest);
        assert(split(rest, ':') =~= seq![rest]);
    }
}

/// A recording is running exactly where it has no end yet and was written to less than ten seconds ago.
pub proof fn a_recording_runs_while_it_is_written(r: RecordingModel, now: i128, m: i128)
    requires
        r.modified == Some(m),
    ensures
        is_running(r, now) <==> !r.complete && 0 <= now - m < 10_000_000_000,
{
}

/// A recording whose time is not known is not known to run.
pub proof fn a_recording_of_no_time_does_not_run(r: RecordingModel, now: i128)
    requires
        r.modified is None,
    ensures
        !is_running(r, now),
{
}

/// Only a file with the extension of portals is looked into, and only where it could be read.
pub proof fn portals_are_told_by_their_extension(
    path: Seq<char>,
    first: Seq<char>,
    ext: Seq<char>,
    text: Seq<char>,
    interface: Seq<char>,
)
    requires
        first.len() > 0,
        !ext.contains('.'),
        file_name(path) == Some(first.push('.') + ext),
    ensures
        offers((path, Some(text)), interface) <==> ext == "portal"@ && declares(text, interface),
        !offers((path, None), interface),
{
    crate::path::a_name_is_its_stem_and_extension(first, ext, Seq::empty());
}

} // verus!
