//! The system settings that decide whether a game runs well, and the one privileged path that
//! changes them.
//!
//! Every tweak is one that stops a game from working, or that the defaults get wrong for games
//! specifically. Nothing is written from the session process: an action is handed to a privileged
//! one, which validates it against a fixed list before anything is touched.
use vstd::prelude::*;
use crate::binary::{fixed, nearest, nearest_of, tenths_text, whole, whole_of};
use crate::collections::NameSet;
use crate::gpu::{file_number, read_num, Gpu};
use crate::lists::{first_where, lemma_filter_step, lemma_first_is, lemma_first_none};
use crate::number::{decimal, decimal_of, lemma_written, read_u64, u64_of};
use crate::path::{is_rooted, join, joined_path, joining_adds_a_part, path_parts};
use crate::text::{
    all_digits, alnum, cat2, cat3, cat4, chars_of, contains, equal, holds, is_alnum, is_digit, joined,
    lines, lines_of, only_digits, part, reads, replace_char, replaced, starts_with, string_of,
    texts, trim, trimmed, words, words_of,
};

verus! {

/// Where a persisted change is written. One file, owned by this app, so undoing everything is
/// deleting one file.
pub const SYSCTL_FILE: &'static str = "/etc/sysctl.d/99-raven-gaming.conf";

pub const LIMITS_FILE: &'static str = "/etc/security/limits.d/99-raven-gaming.conf";

pub const POWER_SOCKET: &'static str = "/run/raven-power/ctl";

// ---------------------------------------------------------------------------
// The tweaks
// ---------------------------------------------------------------------------

/// One system setting the app knows how to read and change.
#[derive(Debug, Clone, Copy, PartialEq, Eq, Structural)]
pub enum Tweak {
    MaxMapCount,
    SplitLock,
    Swappiness,
    FileLimit,
}

/// Every setting, in the order they are shown in.
pub open spec fn all_tweaks() -> Seq<Tweak> {
    seq![Tweak::MaxMapCount, Tweak::SplitLock, Tweak::Swappiness, Tweak::FileLimit]
}

/// Every setting, in the order they are shown in.
pub fn tweaks() -> (r: Vec<Tweak>)
    ensures
        r@ == all_tweaks(),
{
    vec![Tweak::MaxMapCount, Tweak::SplitLock, Tweak::Swappiness, Tweak::FileLimit]
}

/// What the system says of its settings: the texts of the files they stand in, where those could
/// be read, and whether this app's own files are there.
#[derive(Debug)]
pub struct Settings {
    /// `/proc/sys/vm/max_map_count`.
    pub max_map_count: Option<String>,
    /// `/proc/sys/kernel/split_lock_mitigate`.
    pub split_lock_mitigate: Option<String>,
    /// `/proc/sys/vm/swappiness`.
    pub swappiness: Option<String>,
    /// `/proc/self/limits`.
    pub limits: Option<String>,
    /// Whether the sysctl file of this app exists.
    pub sysctl_file: bool,
    /// Whether the limits file of this app exists.
    pub limits_file: bool,
}

/// What is known of the system's settings.
#[verifier::ext_equal]
pub struct SettingsModel {
    pub max_map_count: Option<Seq<char>>,
    pub split_lock_mitigate: Option<Seq<char>>,
    pub swappiness: Option<Seq<char>>,
    pub limits: Option<Seq<char>>,
    pub sysctl_file: bool,
    pub limits_file: bool,
}

impl DeepView for Settings {
    type V = SettingsModel;

    open spec fn deep_view(&self) -> SettingsModel {
        SettingsModel {
            max_map_count: self.max_map_count.deep_view(),
            split_lock_mitigate: self.split_lock_mitigate.deep_view(),
            swappiness: self.swappiness.deep_view(),
            limits: self.limits.deep_view(),
            sysctl_file: self.sysctl_file,
            limits_file: self.limits_file,
        }
    }
}

/// The `sysctl` key of a setting, for the three that are one.
pub open spec fn key_of(t: Tweak) -> Option<Seq<char>> {
    match t {
        Tweak::MaxMapCount => Some("vm.max_map_count"@),
        Tweak::SplitLock => Some("kernel.split_lock_mitigate"@),
        Tweak::Swappiness => Some("vm.swappiness"@),
        Tweak::FileLimit => None,
    }
}

/// What this app sets a setting to.
pub open spec fn wanted_of(t: Tweak) -> u64 {
    match t {
        Tweak::MaxMapCount => 2_147_483_642,
        Tweak::SplitLock => 0,
        Tweak::Swappiness => 10,
        Tweak::FileLimit => 524_288,
    }
}

/// A value counts as already set: at least, exactly or at most what is wanted.
pub open spec fn satisfies(t: Tweak, v: u64) -> bool {
    match t {
        Tweak::MaxMapCount => v >= wanted_of(t),
        Tweak::FileLimit => v >= wanted_of(t),
        Tweak::SplitLock => v == 0,
        Tweak::Swappiness => v <= wanted_of(t),
    }
}

/// The value of a setting in force right now.
pub open spec fn value_of(t: Tweak, s: SettingsModel) -> Option<u64> {
    match t {
        Tweak::MaxMapCount => file_number(s.max_map_count),
        Tweak::SplitLock => file_number(s.split_lock_mitigate),
        Tweak::Swappiness => file_number(s.swappiness),
        Tweak::FileLimit => file_limit(s.limits),
    }
}

/// A setting's value is in force and good.
pub open spec fn in_force(t: Tweak, s: SettingsModel) -> bool {
    value_of(t, s) is Some && satisfies(t, value_of(t, s)->0)
}

/// A setting is written, but not yet in force.
pub open spec fn pending(t: Tweak, s: SettingsModel) -> bool {
    t == Tweak::FileLimit && s.limits_file && !in_force(t, s)
}

/// A setting needs nothing done.
pub open spec fn applied(t: Tweak, s: SettingsModel) -> bool {
    in_force(t, s) || pending(t, s)
}

/// How a setting reads in the UI.
pub open spec fn change_of(t: Tweak, s: SettingsModel) -> Seq<char> {
    if pending(t, s) {
        "Set to "@ + grouped(decimal(wanted_of(t) as int)) + " — takes effect at your next login"@
    } else {
        match value_of(t, s) {
            Some(v) => if satisfies(t, v) {
                "Set to "@ + grouped(decimal(v as int))
            } else {
                grouped(decimal(v as int)) + " → "@ + grouped(decimal(wanted_of(t) as int))
            },
            None => "Not available on this kernel"@,
        }
    }
}

fn number_in(contents: &Option<String>) -> (r: Option<u64>)
    ensures
        r == file_number(contents.deep_view()),
{
    match contents {
        Some(t) => read_num(Some(t)),
        None => None,
    }
}

/// A setting's name, as its row gives it.
pub open spec fn tweak_title(t: Tweak) -> Seq<char> {
    match t {
        Tweak::MaxMapCount => "Memory mappings for large games"@,
        Tweak::SplitLock => "Split-lock stalls"@,
        Tweak::Swappiness => "Keep games out of swap"@,
        Tweak::FileLimit => "Open files for Wine and Proton"@,
    }
}

/// What a setting is for.
pub open spec fn tweak_subtitle(t: Tweak) -> Seq<char> {
    match t {
        Tweak::MaxMapCount => "Raises vm.max_map_count. Below this, big games crash while loading on a machine with memory to spare."@,
        Tweak::SplitLock => "Stops the kernel stalling every core when a game takes a split lock. Removes hitching in the games that do it."@,
        Tweak::Swappiness => "Lowers vm.swappiness so a loading game's own memory is not swapped out to grow the disk cache."@,
        Tweak::FileLimit => "Raises the open-file limit to what Wine's esync needs. At the default, large games run out of descriptors."@,
    }
}

impl Tweak {
    pub fn title(self) -> (r: &'static str)
        ensures
            r@ == tweak_title(self),
    {
        match self {
            Tweak::MaxMapCount => "Memory mappings for large games",
            Tweak::SplitLock => "Split-lock stalls",
            Tweak::Swappiness => "Keep games out of swap",
            Tweak::FileLimit => "Open files for Wine and Proton",
        }
    }

    pub fn subtitle(self) -> (r: &'static str)
        ensures
            r@ == tweak_subtitle(self),
    {
        match self {
            Tweak::MaxMapCount => "Raises vm.max_map_count. Below this, big games crash while loading on a machine with memory to spare.",
            Tweak::SplitLock => "Stops the kernel stalling every core when a game takes a split lock. Removes hitching in the games that do it.",
            Tweak::Swappiness => "Lowers vm.swappiness so a loading game's own memory is not swapped out to grow the disk cache.",
            Tweak::FileLimit => "Raises the open-file limit to what Wine's esync needs. At the default, large games run out of descriptors.",
        }
    }

    /// The `sysctl` key, for the three that are one.
    pub fn key(self) -> (r: Option<&'static str>)
        ensures
            r.deep_view() == key_of(self),
    {
        match self {
            Tweak::MaxMapCount => Some("vm.max_map_count"),
            Tweak::SplitLock => Some("kernel.split_lock_mitigate"),
            Tweak::Swappiness => Some("vm.swappiness"),
            Tweak::FileLimit => None,
        }
    }

    /// What this app sets it to.
    pub fn wanted(self) -> (r: u64)
        ensures
            r == wanted_of(self),
    {
        match self {
            // Valve ships this on the Steam Deck; it is the number games are tested against.
            Tweak::MaxMapCount => 2_147_483_642,
            Tweak::SplitLock => 0,
            Tweak::Swappiness => 10,
            Tweak::FileLimit => 524_288,
        }
    }

    /// Whether a reading counts as already set. Most are "at least this", not "exactly this", so a
    /// person who set something stricter by hand is never told they need this app's value instead.
    pub fn satisfied_by(self, current: u64) -> (r: bool)
        ensures
            r == satisfies(self, current),
    {
        match self {
            Tweak::MaxMapCount | Tweak::FileLimit => current >= self.wanted(),
            Tweak::SplitLock => current == 0,
            Tweak::Swappiness => current <= self.wanted(),
        }
    }

    /// The value in force right now.
    pub fn current(self, settings: &Settings) -> (r: Option<u64>)
        ensures
            r == value_of(self, settings.deep_view()),
    {
        match self {
            Tweak::MaxMapCount => number_in(&settings.max_map_count),
            Tweak::SplitLock => number_in(&settings.split_lock_mitigate),
            Tweak::Swappiness => number_in(&settings.swappiness),
            Tweak::FileLimit => match &settings.limits {
                Some(t) => open_file_limit(Some(t)),
                None => None,
            },
        }
    }

    pub fn is_applied(self, settings: &Settings) -> (r: bool)
        ensures
            r == applied(self, settings.deep_view()),
    {
        let good: bool = match self.current(settings) {
            Some(v) => self.satisfied_by(v),
            None => false,
        };
        good || self.is_pending(settings)
    }

    /// Written, but not yet in force.
    ///
    /// Only the open-file limit can be in this state: it is a PAM limit, not a sysctl, and a
    /// session inherits the limit it was started with.
    pub fn is_pending(self, settings: &Settings) -> (r: bool)
        ensures
            r == pending(self, settings.deep_view()),
    {
        let good: bool = match self.current(settings) {
            Some(v) => self.satisfied_by(v),
            None => false,
        };
        self == Tweak::FileLimit && settings.limits_file && !good
    }

    /// How it reads in the UI: "65,530 → 2,147,483,642".
    pub fn change_text(self, settings: &Settings) -> (r: String)
        ensures
            r@ == change_of(self, settings.deep_view()),
    {
        if self.is_pending(settings) {
            return cat3(
                "Set to ",
                &thousands(self.wanted()),
                " — takes effect at your next login",
            );
        }
        match self.current(settings) {
            Some(current) => if self.satisfied_by(current) {
                cat2("Set to ", &thousands(current))
            } else {
                cat3(&thousands(current), " → ", &thousands(self.wanted()))
            },
            None => String::from_str("Not available on this kernel"),
        }
    }
}

/// The file that a `sysctl` key stands in.
pub open spec fn sysctl_file_of(key: Seq<char>) -> Seq<char> {
    join("/proc/sys"@, replace_char(key, '.', '/'))
}

/// The file that a `sysctl` key stands in.
pub fn sysctl_path(key: &str) -> (r: String)
    ensures
        r@ == sysctl_file_of(key@),
{
    joined_path("/proc/sys", &string_of(&replaced(&chars_of(key), '.', '/')))
}

/// The soft limit on open files: the fourth word of its line in `/proc/self/limits`.
pub open spec fn file_limit(limits: Option<Seq<char>>) -> Option<u64> {
    match limits {
        Some(text) => match first_where(
            lines(trim(text)),
            |l: Seq<char>| "Max open files"@.is_prefix_of(l),
        ) {
            Some(line) => if words(line).len() > 3 {
                u64_of(words(line)[3])
            } else {
                None
            },
            None => None,
        },
        None => None,
    }
}

/// This process's own soft limit on open files, which is the session's, from the text of
/// `/proc/self/limits`.
pub fn open_file_limit(limits: Option<&str>) -> (r: Option<u64>)
    ensures
        r == file_limit(limits.deep_view()),
{
    match limits {
        Some(text) => {
            let chars = chars_of(text);
            let all = lines_of(trimmed(&chars));
            let ghost every = texts(all@);
            let ghost p = |l: Seq<char>| "Max open files"@.is_prefix_of(l);
            let mut i: usize = 0;
            while i < all.len()
                invariant
                    i <= all.len(),
                    every == texts(all@),
                    every == lines(trim(text@)),
                    limits == Some(text),
                    p == (|l: Seq<char>| "Max open files"@.is_prefix_of(l)),
                    forall|j: int| 0 <= j < i ==> !p(#[trigger] every[j]),
                decreases all.len() - i,
            {
                assert(every[i as int] == all@[i as int]@);
                if starts_with(all[i], "Max open files") {
                    proof {
                        lemma_first_is(every, p, i as int);
                    }
                    let fields = words_of(all[i]);
                    if fields.len() > 3 {
                        assert(texts(fields@)[3] == fields@[3]@);
                        return read_u64(fields[3]);
                    }
                    return None;
                }
                i = i + 1;
            }
            proof {
                lemma_first_none(every, p);
            }
            None
        },
        None => None,
    }
}

/// Digits with a comma before each group of three.
pub open spec fn grouped(digits: Seq<char>) -> Seq<char>
    decreases digits.len(),
{
    if digits.len() <= 3 {
        digits
    } else {
        grouped(digits.take(digits.len() - 3)).push(',') + digits.skip(digits.len() - 3)
    }
}

fn group(digits: &[char]) -> (r: String)
    ensures
        r@ == grouped(digits@),
    decreases digits@.len(),
{
    let n: usize = digits.len();
    if n <= 3 {
        string_of(digits)
    } else {
        let head = part(digits, 0, n - 3);
        let tail = part(digits, n - 3, n);
        assert(head@ =~= digits@.take(digits@.len() - 3));
        assert(tail@ =~= digits@.skip(digits@.len() - 3));
        let mut out = group(head);
        out.push(',');
        out.append(&string_of(tail));
        out
    }
}

/// A number with a comma before each group of three digits.
pub fn thousands(value: u64) -> (r: String)
    ensures
        r@ == grouped(decimal(value as int)),
{
    group(&chars_of(&decimal_of(value)))
}

/// The settings that something has to be done about.
pub open spec fn needed(s: SettingsModel) -> Seq<Tweak> {
    all_tweaks().filter(|t: Tweak| !applied(t, s))
}

pub fn tweaks_needed(settings: &Settings) -> (r: Vec<Tweak>)
    ensures
        r@ == needed(settings.deep_view()),
{
    let all = tweaks();
    let ghost s = settings.deep_view();
    let ghost p = |t: Tweak| !applied(t, s);
    let mut out: Vec<Tweak> = Vec::new();
    let mut i: usize = 0;
    proof {
        reveal(Seq::filter);
    }
    while i < all.len()
        invariant
            i <= all.len(),
            all@ == all_tweaks(),
            s == settings.deep_view(),
            p == (|t: Tweak| !applied(t, s)),
            out@ == all@.take(i as int).filter(p),
        decreases all.len() - i,
    {
        proof {
            lemma_filter_step(all@, i as int, p);
        }
        if !all[i].is_applied(settings) {
            out.push(all[i]);
        }
        i = i + 1;
    }
    assert(all@.take(i as int) =~= all@);
    out
}

// ---------------------------------------------------------------------------
// GPU performance level
// ---------------------------------------------------------------------------

/// How hard the card is allowed to clock.
#[derive(Debug, Clone, Copy, PartialEq, Eq, Structural)]
pub enum GpuMode {
    /// The driver decides. Right for everything that is not a game.
    Auto,
    /// Hold the highest clocks. Warmer, louder, and steadier frame times.
    High,
    /// Hold the lowest. For a laptop on battery that is not playing.
    Low,
}

/// What a mode is called in sysfs.
pub open spec fn mode_value(m: GpuMode) -> Seq<char> {
    match m {
        GpuMode::Auto => "auto"@,
        GpuMode::High => "high"@,
        GpuMode::Low => "low"@,
    }
}

/// The mode that a text from sysfs stands for.
pub open spec fn mode_of(value: Seq<char>) -> Option<GpuMode> {
    let v = trim(value);
    if v == "auto"@ {
        Some(GpuMode::Auto)
    } else if v == "high"@ {
        Some(GpuMode::High)
    } else if v == "low"@ {
        Some(GpuMode::Low)
    } else {
        None
    }
}

/// What a mode is called in the UI.
pub open spec fn mode_title(m: GpuMode) -> Seq<char> {
    match m {
        GpuMode::Auto => "Automatic"@,
        GpuMode::High => "Maximum"@,
        GpuMode::Low => "Minimum"@,
    }
}

impl GpuMode {
    pub fn sysfs_value(self) -> (r: &'static str)
        ensures
            r@ == mode_value(self),
    {
        match self {
            GpuMode::Auto => "auto",
            GpuMode::High => "high",
            GpuMode::Low => "low",
        }
    }

    pub fn from_sysfs(value: &str) -> (r: Option<GpuMode>)
        ensures
            r == mode_of(value@),
    {
        let chars = chars_of(value);
        let v = trimmed(&chars);
        if reads(v, "auto") {
            Some(GpuMode::Auto)
        } else if reads(v, "high") {
            Some(GpuMode::High)
        } else if reads(v, "low") {
            Some(GpuMode::Low)
        } else {
            None
        }
    }

    pub fn title(self) -> (r: &'static str)
        ensures
            r@ == mode_title(self),
    {
        match self {
            GpuMode::Auto => "Automatic",
            GpuMode::High => "Maximum",
            GpuMode::Low => "Minimum",
        }
    }
}

/// The file that the clock policy of a card stands in.
pub open spec fn mode_file(card: Seq<char>) -> Seq<char> {
    join(
        join("/sys/class/drm"@, card),
        "device/power_dpm_force_performance_level"@,
    )
}

/// The file that the clock policy of a card stands in.
pub fn mode_file_of(card: &str) -> (r: String)
    ensures
        r@ == mode_file(card@),
{
    joined_path(
        &joined_path("/sys/class/drm", card),
        "device/power_dpm_force_performance_level",
    )
}

/// The file AMD exposes the clock policy in, when the card has one. NVIDIA has no equivalent, so a
/// card without this file simply has no control.
pub fn gpu_mode_path(gpu: &Gpu, files: &NameSet) -> (r: Option<String>)
    ensures
        r.deep_view() == (match gpu.deep_view().card {
            Some(card) => if files@.contains(mode_file(card)) {
                Some(mode_file(card))
            } else {
                None
            },
            None => None,
        }),
{
    match &gpu.card {
        Some(card) => {
            let path = mode_file_of(card);
            if files.contains(&path) {
                Some(path)
            } else {
                None
            }
        },
        None => None,
    }
}

/// The clock policy of a card, from the text of its file where it has one.
pub fn gpu_mode(contents: Option<&str>) -> (r: Option<GpuMode>)
    ensures
        r == (match contents.deep_view() {
            Some(text) => mode_of(trim(text)),
            None => None,
        }),
{
    match contents {
        Some(text) => GpuMode::from_sysfs(&string_of(trimmed(&chars_of(text)))),
        None => None,
    }
}

// ---------------------------------------------------------------------------
// Presets
// ---------------------------------------------------------------------------

/// The one control most people will touch: a named set of everything above, so nobody has to know
/// what a governor is.
#[derive(Debug, Clone, Copy, PartialEq, Eq, Structural)]
pub enum Preset {
    Quiet,
    Balanced,
    Performance,
}

/// Every preset, in the order they are shown in.
pub fn presets() -> (r: Vec<Preset>)
    ensures
        r@ == seq![Preset::Quiet, Preset::Balanced, Preset::Performance],
{
    vec![Preset::Quiet, Preset::Balanced, Preset::Performance]
}

/// The power profile that a preset asks the system for.
pub open spec fn profile_of(p: Preset) -> Seq<char> {
    match p {
        Preset::Quiet => "power-saver"@,
        Preset::Balanced => "balanced"@,
        Preset::Performance => "performance"@,
    }
}

/// The preset that a power profile belongs to.
pub open spec fn preset_of(profile: Seq<char>) -> Option<Preset> {
    if profile == "power-saver"@ {
        Some(Preset::Quiet)
    } else if profile == "balanced"@ {
        Some(Preset::Balanced)
    } else if profile == "performance"@ {
        Some(Preset::Performance)
    } else {
        None
    }
}

/// A preset's name.
pub open spec fn preset_title(p: Preset) -> Seq<char> {
    match p {
        Preset::Quiet => "Quiet"@,
        Preset::Balanced => "Balanced"@,
        Preset::Performance => "Performance"@,
    }
}

/// What a preset is for.
pub open spec fn preset_text(p: Preset) -> Seq<char> {
    match p {
        Preset::Quiet => "Cool and quiet. For older games, emulators, and playing on battery."@,
        Preset::Balanced => "The system decides. Right for almost everything."@,
        Preset::Performance => "Highest clocks held. Warmer and louder, for steady frame times."@,
    }
}

/// The clock policy that goes with a preset.
pub open spec fn preset_mode(p: Preset) -> GpuMode {
    match p {
        Preset::Quiet => GpuMode::Low,
        Preset::Balanced => GpuMode::Auto,
        Preset::Performance => GpuMode::High,
    }
}

impl Preset {
    pub fn title(self) -> (r: &'static str)
        ensures
            r@ == preset_title(self),
    {
        match self {
            Preset::Quiet => "Quiet",
            Preset::Balanced => "Balanced",
            Preset::Performance => "Performance",
        }
    }

    pub fn icon(self) -> (r: &'static str)
        ensures
            r@ == (match self {
                Preset::Quiet => "power-profile-power-saver-symbolic"@,
                Preset::Balanced => "power-profile-balanced-symbolic"@,
                Preset::Performance => "power-profile-performance-symbolic"@,
            }),
    {
        match self {
            Preset::Quiet => "power-profile-power-saver-symbolic",
            Preset::Balanced => "power-profile-balanced-symbolic",
            Preset::Performance => "power-profile-performance-symbolic",
        }
    }

    pub fn description(self) -> (r: &'static str)
        ensures
            r@ == preset_text(self),
    {
        match self {
            Preset::Quiet => "Cool and quiet. For older games, emulators, and playing on battery.",
            Preset::Balanced => "The system decides. Right for almost everything.",
            Preset::Performance => "Highest clocks held. Warmer and louder, for steady frame times.",
        }
    }

    /// The power profile this preset asks the system for.
    pub fn power_profile(self) -> (r: &'static str)
        ensures
            r@ == profile_of(self),
    {
        match self {
            Preset::Quiet => "power-saver",
            Preset::Balanced => "balanced",
            Preset::Performance => "performance",
        }
    }

    pub fn gpu_mode(self) -> (r: GpuMode)
        ensures
            r == preset_mode(self),
    {
        match self {
            Preset::Quiet => GpuMode::Low,
            Preset::Balanced => GpuMode::Auto,
            Preset::Performance => GpuMode::High,
        }
    }

    pub fn from_power_profile(profile: &str) -> (r: Option<Preset>)
        ensures
            r == preset_of(profile@),
    {
        if equal(profile, "power-saver") {
            Some(Preset::Quiet)
        } else if equal(profile, "balanced") {
            Some(Preset::Balanced)
        } else if equal(profile, "performance") {
            Some(Preset::Performance)
        } else {
            None
        }
    }
}

/// The preset that the first word of a reply names.
pub open spec fn replied_preset(reply: Option<Seq<char>>) -> Option<Preset> {
    match reply {
        Some(text) => if words(text).len() > 0 {
            preset_of(words(text)[0])
        } else {
            None
        },
        None => None,
    }
}

/// The profile the system says it is on, asked of raven-powerd first — it owns the governor on
/// Raven Linux and re-applies its own preset — and then of the system profile service.
pub fn active_preset(powerd: Option<&str>, service: Option<&str>) -> (r: Option<Preset>)
    ensures
        r == (if replied_preset(powerd.deep_view()) is Some {
            replied_preset(powerd.deep_view())
        } else {
            match service.deep_view() {
                Some(text) => preset_of(trim(text)),
                None => None,
            }
        }),
{
    if let Some(reply) = powerd {
        let chars = chars_of(reply);
        let all = words_of(&chars);
        if all.len() > 0 {
            assert(texts(all@)[0] == all@[0]@);
            if let Some(preset) = Preset::from_power_profile(&string_of(all[0])) {
                return Some(preset);
            }
        }
    }
    match service {
        Some(text) => Preset::from_power_profile(&string_of(trimmed(&chars_of(text)))),
        None => None,
    }
}

/// What is asked of raven-powerd to set a profile; a profile that is none is refused.
pub fn power_request(profile: &str) -> (r: Result<String, String>)
    ensures
        r is Ok <==> preset_of(profile@) is Some,
        r is Ok ==> r->Ok_0@ == "profile "@ + profile@,
        r is Err ==> r->Err_0@ == "Not a power profile: "@ + profile@,
{
    match Preset::from_power_profile(profile) {
        Some(_) => Ok(cat2("profile ", profile)),
        None => Err(cat2("Not a power profile: ", profile)),
    }
}

/// What to do after raven-powerd was asked to set a profile.
#[derive(Debug, PartialEq, Eq)]
pub enum PowerStep {
    /// The profile is set.
    Done,
    /// It was refused, with this reason.
    Refused(String),
    /// The system profile service is to be asked.
    AskService,
}

/// What was decided after raven-powerd's reply.
#[verifier::ext_equal]
pub enum PowerStepModel {
    Done,
    Refused(Seq<char>),
    AskService,
}

impl DeepView for PowerStep {
    type V = PowerStepModel;

    open spec fn deep_view(&self) -> PowerStepModel {
        match self {
            PowerStep::Done => PowerStepModel::Done,
            PowerStep::Refused(reason) => PowerStepModel::Refused(reason@),
            PowerStep::AskService => PowerStepModel::AskService,
        }
    }
}

/// What to do after raven-powerd's reply, or after it could not be reached. A daemon too old to
/// know the command is passed over; any other error is a refusal.
pub fn after_powerd(reply: Option<&str>) -> (r: PowerStep)
    ensures
        r.deep_view() == (match reply.deep_view() {
            Some(text) => if !"error"@.is_prefix_of(text) {
                PowerStepModel::Done
            } else if !contains(text, "unknown command"@) {
                PowerStepModel::Refused("raven-powerd refused: "@ + text)
            } else {
                PowerStepModel::AskService
            },
            None => PowerStepModel::AskService,
        }),
{
    match reply {
        Some(text) => {
            let chars = chars_of(text);
            if !starts_with(&chars, "error") {
                PowerStep::Done
            } else if !holds(&chars, "unknown command") {
                PowerStep::Refused(cat2("raven-powerd refused: ", text))
            } else {
                PowerStep::AskService
            }
        },
        None => PowerStep::AskService,
    }
}

/// What came of asking the system profile service.
pub enum ServiceAnswer {
    /// There is no such service.
    Absent,
    /// It could not be started, for this reason.
    Failed(String),
    /// It ran, and succeeded or did not.
    Ran(bool),
}

/// What is reported after the system profile service was asked.
pub fn after_service(answer: &ServiceAnswer) -> (r: Result<(), String>)
    ensures
        r is Ok <==> *answer == ServiceAnswer::Ran(true),
        r is Err ==> r->Err_0@ == (match answer {
            ServiceAnswer::Absent => "Neither raven-powerd nor power-profiles-daemon is available"@,
            ServiceAnswer::Failed(e) => "Could not start the system profile service: "@ + e@,
            ServiceAnswer::Ran(_) => "The system power-profile service rejected this change"@,
        }),
{
    match answer {
        ServiceAnswer::Absent => Err(
            String::from_str("Neither raven-powerd nor power-profiles-daemon is available"),
        ),
        ServiceAnswer::Failed(e) => Err(cat2("Could not start the system profile service: ", e)),
        ServiceAnswer::Ran(success) => if *success {
            Ok(())
        } else {
            Err(String::from_str("The system power-profile service rejected this change"))
        },
    }
}

// ---------------------------------------------------------------------------
// Privileged actions
// ---------------------------------------------------------------------------

/// Everything this app will ever do as root, by name.
///
/// The privileged process matches the string it was given against this list and does nothing else.
#[derive(Debug, Clone, PartialEq, Eq)]
pub enum Action {
    /// Build and install every DKMS module for one kernel.
    DkmsInstall { kernel: String },
    /// Write the tweaks above to `/proc/sys` and persist them.
    ApplyTweaks,
    /// Remove the persisted file and restore the kernel's own defaults.
    RevertTweaks,
    /// Hold or release a card's clocks. `card` is a `cardN` name.
    GpuMode { card: String, mode: GpuMode },
}

/// What an action is.
#[verifier::ext_equal]
pub enum ActionModel {
    DkmsInstall { kernel: Seq<char> },
    ApplyTweaks,
    RevertTweaks,
    GpuMode { card: Seq<char>, mode: GpuMode },
}

impl DeepView for Action {
    type V = ActionModel;

    open spec fn deep_view(&self) -> ActionModel {
        match self {
            Action::DkmsInstall { kernel } => ActionModel::DkmsInstall { kernel: kernel@ },
            Action::ApplyTweaks => ActionModel::ApplyTweaks,
            Action::RevertTweaks => ActionModel::RevertTweaks,
            Action::GpuMode { card, mode } => ActionModel::GpuMode { card: card@, mode: *mode },
        }
    }
}

/// The command line that the unprivileged half builds.
pub open spec fn action_args(a: ActionModel) -> Seq<Seq<char>> {
    match a {
        ActionModel::DkmsInstall { kernel } => seq!["--apply"@, "dkms-install"@, kernel],
        ActionModel::ApplyTweaks => seq!["--apply"@, "tweaks"@],
        ActionModel::RevertTweaks => seq!["--apply"@, "revert-tweaks"@],
        ActionModel::GpuMode { card, mode } => seq![
            "--apply"@,
            "gpu-mode"@,
            card,
            mode_value(mode),
        ],
    }
}

/// What the authorization prompt says an action is for.
pub open spec fn action_text(a: ActionModel) -> Seq<char> {
    match a {
        ActionModel::DkmsInstall { kernel } => "Build graphics modules for "@ + kernel,
        ActionModel::ApplyTweaks => "Apply Raven gaming system settings"@,
        ActionModel::RevertTweaks => "Restore the system's own settings"@,
        ActionModel::GpuMode { card, mode } => "Set the graphics card's clock policy"@,
    }
}

/// A character that a kernel release may hold.
pub open spec fn is_release_char(c: char) -> bool {
    is_alnum(c) || c == '.' || c == '-' || c == '_' || c == '+'
}

/// A text has the shape of a kernel release: one to 64 letters, digits and the punctuation that a
/// release uses, and neither of the names that lead out of a directory.
pub open spec fn is_release(s: Seq<char>) -> bool {
    &&& 0 < s.len() <= 64
    &&& s != "."@ && s != ".."@
    &&& forall|i: int| 0 <= i < s.len() ==> is_release_char(#[trigger] s[i])
}

/// A text is the name of a card: `card` and at least one digit.
pub open spec fn is_card_name(s: Seq<char>) -> bool {
    "card"@.is_prefix_of(s) && s.len() > "card"@.len() && all_digits(
        s.skip("card"@.len() as int),
    )
}

/// The action that an argument list names, or why it names none. A kernel has to be one of those
/// with a directory of modules, a card one of those with a directory of its own.
pub open spec fn action_of(
    args: Seq<Seq<char>>,
    kernels: Set<Seq<char>>,
    cards: Set<Seq<char>>,
) -> Result<ActionModel, Seq<char>> {
    if args.len() == 2 && args[0] == "dkms-install"@ {
        if !is_release(args[1]) {
            Err("Not a kernel release: "@ + args[1])
        } else if !kernels.contains(args[1]) {
            Err("No such kernel is installed: "@ + args[1])
        } else {
            Ok(ActionModel::DkmsInstall { kernel: args[1] })
        }
    } else if args.len() == 1 && args[0] == "tweaks"@ {
        Ok(ActionModel::ApplyTweaks)
    } else if args.len() == 1 && args[0] == "revert-tweaks"@ {
        Ok(ActionModel::RevertTweaks)
    } else if args.len() == 3 && args[0] == "gpu-mode"@ {
        if !is_card_name(args[1]) {
            Err("Not a graphics card: "@ + args[1])
        } else if !cards.contains(args[1]) {
            Err("No such graphics card: "@ + args[1])
        } else {
            match mode_of(args[2]) {
                Some(mode) => Ok(ActionModel::GpuMode { card: args[1], mode }),
                None => Err("Not a mode: "@ + args[2]),
            }
        }
    } else {
        Err("Unknown action: "@ + crate::text::join(args, " "@))
    }
}

/// A result holds a value and an error that are the same as those of a model.
pub open spec fn same_result<T: DeepView>(
    r: Result<T, String>,
    m: Result<T::V, Seq<char>>,
) -> bool {
    match m {
        Ok(v) => r is Ok && r->Ok_0.deep_view() == v,
        Err(e) => r is Err && r->Err_0@ == e,
    }
}

impl Action {
    /// The command line the unprivileged half builds.
    pub fn args(&self) -> (r: Vec<String>)
        ensures
            r.deep_view() == action_args(self.deep_view()),
    {
        let mut out: Vec<String> = Vec::new();
        out.push(String::from_str("--apply"));
        match self {
            Action::DkmsInstall { kernel } => {
                out.push(String::from_str("dkms-install"));
                out.push(kernel.clone());
            },
            Action::ApplyTweaks => {
                out.push(String::from_str("tweaks"));
            },
            Action::RevertTweaks => {
                out.push(String::from_str("revert-tweaks"));
            },
            Action::GpuMode { card, mode } => {
                out.push(String::from_str("gpu-mode"));
                out.push(card.clone());
                out.push(String::from_str(mode.sysfs_value()));
            },
        }
        assert(out.deep_view() =~= action_args(self.deep_view()));
        out
    }

    /// What the authorization prompt says this is for.
    pub fn description(&self) -> (r: String)
        ensures
            r@ == action_text(self.deep_view()),
    {
        match self {
            Action::DkmsInstall { kernel } => cat2("Build graphics modules for ", kernel),
            Action::ApplyTweaks => String::from_str("Apply Raven gaming system settings"),
            Action::RevertTweaks => String::from_str("Restore the system's own settings"),
            Action::GpuMode { .. } => String::from_str("Set the graphics card's clock policy"),
        }
    }

    /// The other side: an argument list back into an action, refusing anything that is not one.
    /// This is what runs as root.
    pub fn parse(args: &[String], kernels: &NameSet, cards: &NameSet) -> (r: Result<
        Action,
        String,
    >)
        ensures
            same_result(r, action_of(strings(args@), kernels@, cards@)),
    {
        let ghost all = strings(args@);
        let n: usize = args.len();
        if n == 2 && equal(&args[0], "dkms-install") {
            match validate_kernel(&args[1], kernels) {
                Ok(()) => Ok(Action::DkmsInstall { kernel: args[1].clone() }),
                Err(e) => Err(e),
            }
        } else if n == 1 && equal(&args[0], "tweaks") {
            Ok(Action::ApplyTweaks)
        } else if n == 1 && equal(&args[0], "revert-tweaks") {
            Ok(Action::RevertTweaks)
        } else if n == 3 && equal(&args[0], "gpu-mode") {
            match validate_card(&args[1], cards) {
                Ok(()) => match GpuMode::from_sysfs(&args[2]) {
                    Some(mode) => Ok(Action::GpuMode { card: args[1].clone(), mode }),
                    None => Err(cat2("Not a mode: ", &args[2])),
                },
                Err(e) => Err(e),
            }
        } else {
            let mut words: Vec<String> = Vec::new();
            let mut i: usize = 0;
            while i < args.len()
                invariant
                    i <= args.len(),
                    all == strings(args@),
                    words.deep_view() == all.take(i as int),
                decreases args.len() - i,
            {
                let ghost before = words.deep_view();
                words.push(args[i].clone());
                assert(words.deep_view() =~= before.push(all[i as int]));
                i = i + 1;
                assert(words.deep_view() =~= all.take(i as int));
            }
            assert(all.take(i as int) =~= all);
            Err(cat2("Unknown action: ", &joined(&words, " ")))
        }
    }
}

/// The texts of a list of strings.
pub open spec fn strings(s: Seq<String>) -> Seq<Seq<char>> {
    Seq::new(s.len(), |i: int| s[i]@)
}

fn has_release_shape(release: &[char]) -> (r: bool)
    ensures
        r == is_release(release@),
{
    if release.len() == 0 || release.len() > 64 || reads(release, ".") || reads(release, "..") {
        return false;
    }
    let mut i: usize = 0;
    while i < release.len()
        invariant
            i <= release.len(),
            forall|j: int| 0 <= j < i ==> is_release_char(#[trigger] release@[j]),
        decreases release.len() - i,
    {
        let c = release[i];
        if !(alnum(c) || c == '.' || c == '-' || c == '_' || c == '+') {
            return false;
        }
        i = i + 1;
    }
    true
}

/// A kernel release, as `uname -r` gives it. Letters, digits, and the punctuation marks a release
/// uses — nothing that could walk out of `/usr/lib/modules` or reach a shell — and it has to have a
/// directory of modules.
pub fn validate_kernel(release: &str, kernels: &NameSet) -> (r: Result<(), String>)
    ensures
        r is Ok <==> is_release(release@) && kernels@.contains(release@),
        r is Err ==> r->Err_0@ == (if !is_release(release@) {
            "Not a kernel release: "@ + release@
        } else {
            "No such kernel is installed: "@ + release@
        }),
{
    if !has_release_shape(&chars_of(release)) {
        return Err(cat2("Not a kernel release: ", release));
    }
    if !kernels.contains(release) {
        return Err(cat2("No such kernel is installed: ", release));
    }
    Ok(())
}

/// A DRM card name: `card` and digits, and it has to exist.
pub fn validate_card(card: &str, cards: &NameSet) -> (r: Result<(), String>)
    ensures
        r is Ok <==> is_card_name(card@) && cards@.contains(card@),
        r is Err ==> r->Err_0@ == (if !is_card_name(card@) {
            "Not a graphics card: "@ + card@
        } else {
            "No such graphics card: "@ + card@
        }),
{
    let chars = chars_of(card);
    let prefix = chars_of("card");
    let shaped: bool = match crate::text::after_prefix(&chars, &prefix) {
        Some(rest) => rest.len() > 0 && only_digits(rest),
        None => false,
    };
    if !shaped {
        return Err(cat2("Not a graphics card: ", card));
    }
    if !cards.contains(card) {
        return Err(cat2("No such graphics card: ", card));
    }
    Ok(())
}

/// One thing done as root.
#[derive(Debug, PartialEq, Eq)]
pub enum Step {
    /// Run dkms for a kernel.
    Dkms { kernel: String },
    /// Write a text to a file.
    Write { path: String, text: String },
    /// Write a text to a file whose directory may have to be made first.
    WriteNew { path: String, text: String },
    /// Remove a file, where it is there.
    Remove { path: String },
}

/// What is done as root.
#[verifier::ext_equal]
pub enum StepModel {
    Dkms { kernel: Seq<char> },
    Write { path: Seq<char>, text: Seq<char> },
    WriteNew { path: Seq<char>, text: Seq<char> },
    Remove { path: Seq<char> },
}

impl DeepView for Step {
    type V = StepModel;

    open spec fn deep_view(&self) -> StepModel {
        match self {
            Step::Dkms { kernel } => StepModel::Dkms { kernel: kernel@ },
            Step::Write { path, text } => StepModel::Write { path: path@, text: text@ },
            Step::WriteNew { path, text } => StepModel::WriteNew { path: path@, text: text@ },
            Step::Remove { path } => StepModel::Remove { path: path@ },
        }
    }
}

/// The line of the sysctl file that persists a setting.
pub open spec fn sysctl_line(t: Tweak) -> Seq<char> {
    key_of(t)->0 + " = "@ + decimal(wanted_of(t) as int) + "\n"@
}

/// The sysctl file that persists the settings.
pub open spec fn sysctl_text() -> Seq<char> {
    "# Written by Raven Gaming. Delete this file to restore the system's\n# own settings, or use the Revert button in the app.\n"@
        + sysctl_line(Tweak::MaxMapCount) + sysctl_line(Tweak::SplitLock) + sysctl_line(
        Tweak::Swappiness,
    )
}

/// The limits file that persists the open-file limit.
pub open spec fn limits_text() -> Seq<char> {
    "# Written by Raven Gaming, for Wine and Proton's esync.\n* soft nofile "@ + decimal(
        wanted_of(Tweak::FileLimit) as int,
    ) + "\n* hard nofile "@ + decimal(wanted_of(Tweak::FileLimit) as int) + "\n"@
}

/// The write that puts a setting in force now.
pub open spec fn setting_write(t: Tweak) -> StepModel {
    StepModel::Write { path: sysctl_file_of(key_of(t)->0), text: decimal(wanted_of(t) as int) }
}

/// What is done as root for an action, in order.
pub open spec fn steps_of(a: ActionModel) -> Seq<StepModel> {
    match a {
        ActionModel::DkmsInstall { kernel } => seq![StepModel::Dkms { kernel }],
        ActionModel::ApplyTweaks => seq![
            setting_write(Tweak::MaxMapCount),
            setting_write(Tweak::SplitLock),
            setting_write(Tweak::Swappiness),
            StepModel::WriteNew { path: SYSCTL_FILE@, text: sysctl_text() },
            StepModel::WriteNew { path: LIMITS_FILE@, text: limits_text() },
        ],
        ActionModel::RevertTweaks => seq![
            StepModel::Remove { path: SYSCTL_FILE@ },
            StepModel::Remove { path: LIMITS_FILE@ },
        ],
        ActionModel::GpuMode { card, mode } => seq![
            StepModel::Write { path: mode_file(card), text: mode_value(mode) },
        ],
    }
}

fn write_setting(key: &str, wanted: u64) -> (r: Step)
    ensures
        r.deep_view() == (StepModel::Write {
            path: sysctl_file_of(key@),
            text: decimal(wanted as int),
        }),
{
    Step::Write { path: sysctl_path(key), text: decimal_of(wanted) }
}

fn persist_line(key: &str, wanted: u64) -> (r: String)
    ensures
        r@ == key@ + " = "@ + decimal(wanted as int) + "\n"@,
{
    cat4(key, " = ", &decimal_of(wanted), "\n")
}

/// The steps that put the settings in force now, and after the next boot. The open-file limit is
/// not a sysctl; it is a PAM limit, and only takes effect on the next login.
fn apply_tweaks() -> (r: Vec<Step>)
    ensures
        r.deep_view() == steps_of(ActionModel::ApplyTweaks),
{
    let mut out: Vec<Step> = Vec::new();
    out.push(write_setting("vm.max_map_count", Tweak::MaxMapCount.wanted()));
    out.push(write_setting("kernel.split_lock_mitigate", Tweak::SplitLock.wanted()));
    out.push(write_setting("vm.swappiness", Tweak::Swappiness.wanted()));
    let mut sysctl = String::from_str(
        "# Written by Raven Gaming. Delete this file to restore the system's\n# own settings, or use the Revert button in the app.\n",
    );
    sysctl.append(&persist_line("vm.max_map_count", Tweak::MaxMapCount.wanted()));
    sysctl.append(&persist_line("kernel.split_lock_mitigate", Tweak::SplitLock.wanted()));
    sysctl.append(&persist_line("vm.swappiness", Tweak::Swappiness.wanted()));
    out.push(Step::WriteNew { path: String::from_str(SYSCTL_FILE), text: sysctl });
    let limit = decimal_of(Tweak::FileLimit.wanted());
    let mut limits = String::from_str(
        "# Written by Raven Gaming, for Wine and Proton's esync.\n* soft nofile ",
    );
    limits.append(&limit);
    limits.append("\n* hard nofile ");
    limits.append(&limit);
    limits.append("\n");
    out.push(Step::WriteNew { path: String::from_str(LIMITS_FILE), text: limits });
    assert(out.deep_view() =~= steps_of(ActionModel::ApplyTweaks));
    out
}

/// What is done as root for an action, in order.
pub fn steps(action: &Action) -> (r: Vec<Step>)
    ensures
        r.deep_view() == steps_of(action.deep_view()),
{
    let mut out: Vec<Step> = Vec::new();
    match action {
        Action::DkmsInstall { kernel } => {
            out.push(Step::Dkms { kernel: kernel.clone() });
        },
        Action::ApplyTweaks => {
            return apply_tweaks();
        },
        Action::RevertTweaks => {
            out.push(Step::Remove { path: String::from_str(SYSCTL_FILE) });
            out.push(Step::Remove { path: String::from_str(LIMITS_FILE) });
        },
        Action::GpuMode { card, mode } => {
            out.push(
                Step::Write {
                    path: mode_file_of(card),
                    text: String::from_str(mode.sysfs_value()),
                },
            );
        },
    }
    assert(out.deep_view() =~= steps_of(action.deep_view()));
    out
}

/// What running an action as root amounts to; an argument list that names no action amounts to
/// nothing but an error.
pub fn apply_privileged(args: &[String], kernels: &NameSet, cards: &NameSet) -> (r: Result<
    Vec<Step>,
    String,
>)
    ensures
        same_result(
            r,
            match action_of(strings(args@), kernels@, cards@) {
                Ok(a) => Ok(steps_of(a)),
                Err(e) => Err(e),
            },
        ),
{
    match Action::parse(args, kernels, cards) {
        Ok(action) => Ok(steps(&action)),
        Err(e) => Err(e),
    }
}

/// What is reported of a file that could not be written, made or removed.
pub fn file_failure(path: &str, error: &str) -> (r: String)
    ensures
        r@ == path@ + ": "@ + error@,
{
    cat3(path, ": ", error)
}

/// The command that builds and installs every module for a kernel, given where dkms is.
pub fn dkms_install(dkms: Option<&str>, kernel: &str) -> (r: Result<Vec<String>, String>)
    ensures
        match dkms {
            Some(program) => r is Ok && r->Ok_0.deep_view() == seq![
                program@,
                "autoinstall"@,
                "-k"@,
                kernel@,
            ],
            None => r is Err && r->Err_0@ == "dkms is not installed"@,
        },
{
    match dkms {
        Some(program) => {
            let mut command: Vec<String> = Vec::new();
            command.push(String::from_str(program));
            command.push(String::from_str("autoinstall"));
            command.push(String::from_str("-k"));
            command.push(String::from_str(kernel));
            assert(command.deep_view() =~= seq![program@, "autoinstall"@, "-k"@, kernel@]);
            Ok(command)
        },
        None => Err(String::from_str("dkms is not installed")),
    }
}

/// What is said where dkms could not be run.
pub fn dkms_failure(error: &str) -> (r: String)
    ensures
        r@ == "Could not run dkms: "@ + error@,
{
    cat2("Could not run dkms: ", error)
}

/// What is reported after dkms ran: where it failed, the last line that says anything.
pub fn dkms_outcome(success: bool, stderr: &str, stdout: &str) -> (r: Result<(), String>)
    ensures
        r is Ok <==> success,
        r is Err ==> r->Err_0@ == (match final_line(stderr@) {
            Some(line) => line,
            None => match final_line(stdout@) {
                Some(line) => line,
                None => "dkms failed"@,
            },
        }),
{
    if success {
        return Ok(());
    }
    Err(
        match last_line(stderr) {
            Some(line) => line,
            None => match last_line(stdout) {
                Some(line) => line,
                None => String::from_str("dkms failed"),
            },
        },
    )
}

/// The last of some lines that is not blank, without the white space round it.
pub open spec fn last_of(lines: Seq<Seq<char>>) -> Option<Seq<char>>
    decreases lines.len(),
{
    if lines.len() == 0 {
        None
    } else if trim(lines.last()).len() > 0 {
        Some(trim(lines.last()))
    } else {
        last_of(lines.drop_last())
    }
}

/// The last line of a text that is not blank.
pub open spec fn final_line(text: Seq<char>) -> Option<Seq<char>> {
    last_of(lines(text))
}

/// The last line of a text that is not blank, without the white space round it.
pub fn last_line(text: &str) -> (r: Option<String>)
    ensures
        r.deep_view() == final_line(text@),
{
    let chars = chars_of(text);
    let all = lines_of(&chars);
    let ghost every = texts(all@);
    let mut n: usize = all.len();
    assert(every.take(n as int) =~= every);
    while n > 0
        invariant
            n <= all.len(),
            every == texts(all@),
            every == lines(text@),
            last_of(every.take(n as int)) == last_of(every),
        decreases n,
    {
        assert(every.take(n as int).drop_last() =~= every.take(n - 1));
        assert(every.take(n as int).last() == all@[n - 1]@);
        let line = trimmed(all[n - 1]);
        if line.len() > 0 {
            return Some(string_of(line));
        }
        n = n - 1;
    }
    None
}

/// Whether the persisted files this app writes are in place.
pub fn tweaks_persisted(settings: &Settings) -> (r: bool)
    ensures
        r == (settings.deep_view().sysctl_file || settings.deep_view().limits_file),
{
    settings.sysctl_file || settings.limits_file
}

// ---------------------------------------------------------------------------
// Asking for the password
// ---------------------------------------------------------------------------

/// The command that re-runs this program as root to carry out an action: `run0` where systemd is
/// booted, falling back to `pkexec`.
pub open spec fn root_command_of(
    a: ActionModel,
    executable: Seq<char>,
    has_run0: bool,
    systemd_booted: bool,
    has_pkexec: bool,
) -> Result<Seq<Seq<char>>, Seq<char>> {
    if has_run0 && systemd_booted {
        Ok(
            seq![
                "run0"@,
                "--unit=raven-gaming-apply"@,
                "--description="@ + action_text(a),
                executable,
            ] + action_args(a),
        )
    } else if has_pkexec {
        Ok(seq!["pkexec"@, executable] + action_args(a))
    } else {
        Err("Raven Gaming needs run0 or pkexec to change system settings"@)
    }
}

/// The command that re-runs this program as root to carry out one action.
///
/// `run0` needs a booted systemd; without one it fails before any authorization happens, which
/// must not be reported as a refusal.
pub fn root_command(
    action: &Action,
    executable: &str,
    has_run0: bool,
    systemd_booted: bool,
    has_pkexec: bool,
) -> (r: Result<Vec<String>, String>)
    ensures
        same_result(
            r,
            root_command_of(
                action.deep_view(),
                executable@,
                has_run0,
                systemd_booted,
                has_pkexec,
            ),
        ),
{
    let mut out: Vec<String> = Vec::new();
    if has_run0 && systemd_booted {
        out.push(String::from_str("run0"));
        out.push(String::from_str("--unit=raven-gaming-apply"));
        out.push(cat2("--description=", &action.description()));
        out.push(String::from_str(executable));
    } else if has_pkexec {
        out.push(String::from_str("pkexec"));
        out.push(String::from_str(executable));
    } else {
        return Err(
            String::from_str("Raven Gaming needs run0 or pkexec to change system settings"),
        );
    }
    let ghost head = out.deep_view();
    let mut rest = action.args();
    let ghost tail = rest.deep_view();
    out.append(&mut rest);
    assert(out.deep_view() =~= head + tail);
    assert(out.deep_view() =~= root_command_of(
        action.deep_view(),
        executable@,
        has_run0,
        systemd_booted,
        has_pkexec,
    )->Ok_0);
    Ok(out)
}

/// What is said where this program's own file could not be found.
pub fn executable_failure(error: &str) -> (r: String)
    ensures
        r@ == "Could not locate the Raven Gaming executable: "@ + error@,
{
    cat2("Could not locate the Raven Gaming executable: ", error)
}

/// What is said where authorization could not be asked for.
pub fn authorization_failure(error: &str) -> (r: String)
    ensures
        r@ == "Could not request authorization: "@ + error@,
{
    cat2("Could not request authorization: ", error)
}

/// What is reported after an action ran as root. A refused authorization is told from the action's
/// own error, which is shown as it is.
pub fn root_outcome(success: bool, stderr: &str) -> (r: Result<(), String>)
    ensures
        r is Ok <==> success,
        r is Err ==> r->Err_0@ == (if contains(stderr@, "dismissed"@) || contains(
            stderr@,
            "not authorized"@,
        ) {
            "Authorization was not given"@
        } else {
            match final_line(stderr@) {
                Some(line) => line,
                None => "The change could not be made"@,
            }
        }),
{
    if success {
        return Ok(());
    }
    let chars = chars_of(stderr);
    if holds(&chars, "dismissed") || holds(&chars, "not authorized") {
        return Err(String::from_str("Authorization was not given"));
    }
    Err(
        match last_line(stderr) {
            Some(line) => line,
            None => String::from_str("The change could not be made"),
        },
    )
}

// ---------------------------------------------------------------------------
// Shader cache
// ---------------------------------------------------------------------------

/// Where caches stand: where the session says, or below the home directory.
pub open spec fn cache_home(home: Option<Seq<char>>, xdg: Option<Seq<char>>) -> Option<
    Seq<char>,
> {
    match xdg {
        Some(dir) => Some(dir),
        None => match home {
            Some(h) => Some(join(h, ".cache"@)),
            None => None,
        },
    }
}

/// Where Mesa and NVIDIA keep compiled shaders.
pub fn shader_cache_dirs(home: Option<&str>, xdg_cache_home: Option<&str>) -> (r: Vec<String>)
    ensures
        r.deep_view() == (match cache_home(home.deep_view(), xdg_cache_home.deep_view()) {
            Some(cache) => seq![
                join(cache, "mesa_shader_cache"@),
                join(cache, "mesa_shader_cache_db"@),
                join(cache, "nv"@),
                join(cache, "nvidia"@),
            ],
            None => Seq::empty(),
        }),
{
    let mut out: Vec<String> = Vec::new();
    let cache: Option<String> = match xdg_cache_home {
        Some(dir) => Some(String::from_str(dir)),
        None => match home {
            Some(h) => Some(joined_path(h, ".cache")),
            None => None,
        },
    };
    match cache {
        Some(dir) => {
            out.push(joined_path(&dir, "mesa_shader_cache"));
            out.push(joined_path(&dir, "mesa_shader_cache_db"));
            out.push(joined_path(&dir, "nv"));
            out.push(joined_path(&dir, "nvidia"));
            assert(out.deep_view() =~= seq![
                join(dir@, "mesa_shader_cache"@),
                join(dir@, "mesa_shader_cache_db"@),
                join(dir@, "nv"@),
                join(dir@, "nvidia"@),
            ]);
            out
        },
        None => {
            assert(out.deep_view() =~= Seq::empty());
            out
        },
    }
}

/// What was found at a place in the file system.
#[derive(Debug)]
pub enum Tree {
    Folder(Vec<Tree>),
    /// A file, and its size.
    File(u64),
    Other,
}

/// The bytes of the files under a folder at a level, down to the level of the limit.
pub open spec fn folder_bytes(entries: Seq<Tree>, depth: int, limit: int) -> int
    decreases entries, entries.len(),
{
    if depth > limit || entries.len() == 0 {
        0
    } else {
        folder_bytes(entries.drop_last(), depth, limit) + tree_bytes(entries.last(), depth, limit)
    }
}

/// The bytes of what was found in a folder at a level.
pub open spec fn tree_bytes(t: Tree, depth: int, limit: int) -> int
    decreases t, 0nat,
{
    match t {
        Tree::Folder(entries) => folder_bytes(entries@, depth + 1, limit),
        Tree::File(size) => size as int,
        Tree::Other => 0,
    }
}

proof fn lemma_tree_bytes(t: Tree, depth: int, limit: int)
    ensures
        tree_bytes(t, depth, limit) >= 0,
    decreases t, 0nat,
{
    match t {
        Tree::Folder(entries) => {
            lemma_folder_bytes(entries@, depth + 1, limit);
        },
        _ => {},
    }
}

proof fn lemma_folder_bytes(entries: Seq<Tree>, depth: int, limit: int)
    ensures
        folder_bytes(entries, depth, limit) >= 0,
    decreases entries, entries.len(),
{
    if !(depth > limit || entries.len() == 0) {
        lemma_folder_bytes(entries.drop_last(), depth, limit);
        lemma_tree_bytes(entries.last(), depth, limit);
    }
}

proof fn lemma_folder_take(entries: Seq<Tree>, n: int, depth: int, limit: int)
    requires
        0 <= n <= entries.len(),
    ensures
        folder_bytes(entries.take(n), depth, limit) <= folder_bytes(entries, depth, limit),
    decreases entries.len(),
{
    if n < entries.len() {
        lemma_folder_take(entries.drop_last(), n, depth, limit);
        assert(entries.drop_last().take(n) =~= entries.take(n));
        lemma_tree_bytes(entries.last(), depth, limit);
    } else {
        assert(entries.take(n) =~= entries);
    }
}

/// Bytes under a directory at a level, down to the level of the limit.
pub fn tree_size(entries: &Vec<Tree>, depth: u32, limit: u32) -> (r: u64)
    requires
        folder_bytes(entries@, depth as int, limit as int) <= u64::MAX,
        limit < u32::MAX,
    ensures
        r == folder_bytes(entries@, depth as int, limit as int),
    decreases entries,
{
    if depth > limit {
        return 0;
    }
    let mut total: u64 = 0;
    let mut i: usize = 0;
    while i < entries.len()
        invariant
            i <= entries.len(),
            depth <= limit < u32::MAX,
            folder_bytes(entries@, depth as int, limit as int) <= u64::MAX,
            total == folder_bytes(entries@.take(i as int), depth as int, limit as int),
        decreases entries.len() - i,
    {
        assert(entries@.take(i + 1).drop_last() =~= entries@.take(i as int));
        assert(entries@.take(i + 1).last() == entries@[i as int]);
        proof {
            lemma_folder_take(entries@, i + 1, depth as int, limit as int);
            lemma_tree_bytes(entries@[i as int], depth as int, limit as int);
            lemma_folder_bytes(entries@.take(i as int), depth as int, limit as int);
        }
        let size: u64 = match &entries[i] {
            Tree::Folder(inner) => {
                assert(decreases_to!(entries => entries@[i as int]));
                tree_size(inner, depth + 1, limit)
            },
            Tree::File(size) => *size,
            Tree::Other => 0,
        };
        total = total + size;
        i = i + 1;
    }
    assert(entries@.take(i as int) =~= entries@);
    total
}

/// Bytes under a directory. Depth-limited: a shader cache is two levels deep, and a loop somewhere
/// under the cache directory must not be followed for ever.
pub fn directory_size(entries: &Vec<Tree>, depth: u32) -> (r: u64)
    requires
        folder_bytes(entries@, depth as int, 4) <= u64::MAX,
    ensures
        r == folder_bytes(entries@, depth as int, 4),
{
    tree_size(entries, depth, 4)
}

/// The unit that a size is shown in: bytes, or the largest of which there is at least one, up to
/// terabytes.
pub open spec fn unit_of(v: int) -> int {
    if v < 0x400 {
        0
    } else if v < 0x10_0000 {
        1
    } else if v < 0x4000_0000 {
        2
    } else if v < 0x100_0000_0000 {
        3
    } else {
        4
    }
}

/// How many bytes a unit holds.
pub open spec fn unit_size(unit: int) -> int {
    if unit == 0 {
        1
    } else if unit == 1 {
        0x400
    } else if unit == 2 {
        0x10_0000
    } else if unit == 3 {
        0x4000_0000
    } else {
        0x100_0000_0000
    }
}

/// A unit's name.
pub open spec fn unit_name(unit: int) -> Seq<char> {
    if unit == 0 {
        "B"@
    } else if unit == 1 {
        "KB"@
    } else if unit == 2 {
        "MB"@
    } else if unit == 3 {
        "GB"@
    } else {
        "TB"@
    }
}

/// A size as people say it: whole bytes, or a larger unit to one place, as a double gives it.
pub open spec fn bytes_text(bytes: u64) -> Seq<char> {
    let v = whole(bytes as int);
    let unit = unit_of(v);
    if unit == 0 {
        decimal(bytes as int) + " B"@
    } else {
        fixed(nearest(10 * v, unit_size(unit)), 10, 1) + " "@ + unit_name(unit)
    }
}

/// A size as people say it.
pub fn human_bytes(bytes: u64) -> (r: String)
    ensures
        r@ == bytes_text(bytes),
{
    let v: u128 = whole_of(bytes);
    if v < 0x400 {
        return cat2(&decimal_of(bytes), " B");
    }
    let (size, name): (u128, &str) = if v < 0x10_0000 {
        (0x400, "KB")
    } else if v < 0x4000_0000 {
        (0x10_0000, "MB")
    } else if v < 0x100_0000_0000 {
        (0x4000_0000, "GB")
    } else {
        (0x100_0000_0000, "TB")
    };
    let parts: u128 = nearest_of(10 * v, size);
    proof {
        assert(parts <= 0xffff_ffff_ffff_ffff) by {
            assert((10 * v) as int / size as int <= 10 * v) by (nonlinear_arith)
                requires
                    size >= 1,
                    v >= 0,
            ;
            assert((10 * v) as int / size as int <= 0x1000_0000_0000_0000) by (nonlinear_arith)
                requires
                    size >= 0x400,
                    0 <= v <= 0x1_0000_0000_0000_0000,
            ;
        }
    }
    cat3(&tenths_text(parts as u64), " ", name)
}

// ---------------------------------------------------------------------------
// Laws
// ---------------------------------------------------------------------------

/// A pending setting counts as applied, and only the open-file limit can be pending.
pub proof fn pending_counts_as_applied(t: Tweak, s: SettingsModel)
    requires
        pending(t, s),
    ensures
        applied(t, s),
        t == Tweak::FileLimit,
        !needed(s).contains(t),
{
    crate::lists::lemma_filter_members(all_tweaks(), |x: Tweak| !applied(x, s));
}

/// What this app sets a setting to satisfies it.
pub proof fn the_wanted_value_satisfies(t: Tweak)
    ensures
        satisfies(t, wanted_of(t)),
{
}

/// A stricter value than a good one is good too: a larger map count or file limit, a lower
/// swappiness.
pub proof fn stricter_still_satisfies(t: Tweak, v: u64, stricter: u64)
    requires
        satisfies(t, v),
        match t {
            Tweak::MaxMapCount => stricter >= v,
            Tweak::FileLimit => stricter >= v,
            Tweak::SplitLock => stricter == v,
            Tweak::Swappiness => stricter <= v,
        },
    ensures
        satisfies(t, stricter),
{
}

/// A text is white space and nothing else.
pub open spec fn is_blank(s: Seq<char>) -> bool {
    forall|i: int| 0 <= i < s.len() ==> crate::text::is_space(#[trigger] s[i])
}

proof fn lemma_trim_start_blank(before: Seq<char>, s: Seq<char>)
    requires
        is_blank(before),
        s.len() > 0,
        !crate::text::is_space(s[0]),
    ensures
        crate::text::trim_start(before + s) == s,
    decreases before.len(),
{
    let all = before + s;
    if before.len() == 0 {
        assert(all =~= s);
    } else {
        assert(all[0] == before[0]);
        assert(all.skip(1) =~= before.skip(1) + s);
        assert(all.drop_first() =~= all.skip(1));
        lemma_trim_start_blank(before.skip(1), s);
    }
}

proof fn lemma_trim_end_blank(s: Seq<char>, after: Seq<char>)
    requires
        is_blank(after),
        s.len() > 0,
        !crate::text::is_space(s.last()),
    ensures
        crate::text::trim_end(s + after) == s,
    decreases after.len(),
{
    let all = s + after;
    if after.len() == 0 {
        assert(all =~= s);
    } else {
        assert(all.last() == after.last());
        assert(all.drop_last() =~= s + after.drop_last());
        lemma_trim_end_blank(s, after.drop_last());
    }
}

proof fn lemma_trim_blank(before: Seq<char>, s: Seq<char>, after: Seq<char>)
    requires
        is_blank(before),
        is_blank(after),
        s.len() > 0,
        !crate::text::is_space(s[0]),
        !crate::text::is_space(s.last()),
    ensures
        trim(before + s + after) == s,
{
    assert(before + s + after =~= before + (s + after));
    assert((s + after)[0] == s[0]);
    lemma_trim_start_blank(before, s + after);
    lemma_trim_end_blank(s, after);
}

/// Every mode is read back from what it is called in sysfs, whatever white space is round it.
pub proof fn modes_round_trip(m: GpuMode, before: Seq<char>, after: Seq<char>)
    requires
        is_blank(before),
        is_blank(after),
    ensures
        mode_of(before + mode_value(m) + after) == Some(m),
{
    reveal_strlit("auto");
    reveal_strlit("high");
    reveal_strlit("low");
    lemma_trim_blank(before, mode_value(m), after);
    assert("auto"@[0] != "high"@[0] && "auto"@[0] != "low"@[0] && "high"@[0] != "low"@[0]);
}

/// Presets and power profiles agree both ways: every preset is read back from its profile, and a
/// profile that is read as a preset is that preset's own.
pub proof fn presets_and_profiles_agree(p: Preset, s: Seq<char>)
    ensures
        preset_of(profile_of(p)) == Some(p),
        preset_of(s) == Some(p) ==> profile_of(p) == s,
{
    reveal_strlit("power-saver");
    reveal_strlit("balanced");
    reveal_strlit("performance");
    assert("power-saver"@[1] != "balanced"@[1]);
    assert("power-saver"@[1] != "performance"@[1]);
    assert("balanced"@[1] != "performance"@[1]);
}

/// An action may be carried out: its kernel or card has the shape of one and is there.
pub open spec fn allowed(a: ActionModel, kernels: Set<Seq<char>>, cards: Set<Seq<char>>) -> bool {
    match a {
        ActionModel::DkmsInstall { kernel } => is_release(kernel) && kernels.contains(kernel),
        ActionModel::ApplyTweaks => true,
        ActionModel::RevertTweaks => true,
        ActionModel::GpuMode { card, mode } => is_card_name(card) && cards.contains(card),
    }
}

proof fn lemma_verbs_differ()
    ensures
        "tweaks"@ != "revert-tweaks"@,
        "dkms-install"@ != "gpu-mode"@,
{
    reveal_strlit("tweaks");
    reveal_strlit("revert-tweaks");
    reveal_strlit("dkms-install");
    reveal_strlit("gpu-mode");
    assert("tweaks"@.len() != "revert-tweaks"@.len());
    assert("dkms-install"@.len() != "gpu-mode"@.len());
}

/// Every action that may be carried out survives the way through its command line: the privileged
/// half reads back what the other half wrote.
pub proof fn actions_round_trip(a: ActionModel, kernels: Set<Seq<char>>, cards: Set<Seq<char>>)
    requires
        allowed(a, kernels, cards),
    ensures
        action_args(a)[0] == "--apply"@,
        action_of(action_args(a).skip(1), kernels, cards) == Ok::<ActionModel, Seq<char>>(a),
{
    lemma_verbs_differ();
    let rest = action_args(a).skip(1);
    match a {
        ActionModel::DkmsInstall { kernel } => {
            assert(rest =~= seq!["dkms-install"@, kernel]);
        },
        ActionModel::ApplyTweaks => {
            assert(rest =~= seq!["tweaks"@]);
        },
        ActionModel::RevertTweaks => {
            assert(rest =~= seq!["revert-tweaks"@]);
        },
        ActionModel::GpuMode { card, mode } => {
            assert(rest =~= seq!["gpu-mode"@, card, mode_value(mode)]);
            modes_round_trip(mode, Seq::empty(), Seq::empty());
            assert(Seq::<char>::empty() + mode_value(mode) + Seq::<char>::empty() =~= mode_value(mode));
        },
    }
}

/// The privileged half carries out nothing that is not on its list: an argument list is read as an
/// action only where it is the command line of one that may be carried out, but for white space
/// round the name of a mode.
pub proof fn anything_else_is_refused(
    args: Seq<Seq<char>>,
    kernels: Set<Seq<char>>,
    cards: Set<Seq<char>>,
)
    ensures
        match action_of(args, kernels, cards) {
            Ok(a) => allowed(a, kernels, cards) && args.len() + 1 == action_args(a).len() && forall|
                i: int,
            |
                0 <= i < args.len() && i < 2 ==> args[i] == #[trigger] action_args(a)[i + 1],
            Err(_) => true,
        },
        args.len() == 0 || args.len() > 3 ==> action_of(args, kernels, cards) is Err,
{
    lemma_verbs_differ();
}

/// A kernel argument that is accepted holds no separator and is neither `.` nor `..`, so it names a
/// directory right below that of the modules and nothing outside it.
pub proof fn kernels_hold_no_separator(release: Seq<char>)
    requires
        is_release(release),
    ensures
        release != "."@,
        release != ".."@,
        !release.contains('/'),
        !release.contains(' '),
        !release.contains(';'),
        path_parts(join("/usr/lib/modules"@, release)) == path_parts("/usr/lib/modules"@).push(
            release,
        ),
        is_rooted(join("/usr/lib/modules"@, release)),
{
    reveal_strlit("/usr/lib/modules");
    assert forall|i: int| 0 <= i < release.len() implies release[i] != '/' && release[i] != ' '
        && release[i] != ';' by {
        assert(is_release_char(release[i]));
    }
    joining_adds_a_part("/usr/lib/modules"@, release);
}

/// A card argument that is accepted is `card` and digits.
pub proof fn cards_are_cards(card: Seq<char>, i: int)
    requires
        is_card_name(card),
        0 <= i < card.len(),
    ensures
        i >= 4 ==> is_digit(card[i]),
        card[i] != '/',
{
    reveal_strlit("card");
    if i >= 4 {
        assert(card.skip(4)[i - 4] == card[i]);
    } else {
        assert(card[i] == "card"@[i]);
    }
}

/// Grouping only adds commas: without them the digits are as they were.
pub proof fn grouping_only_adds_commas(digits: Seq<char>)
    requires
        all_digits(digits),
    ensures
        grouped(digits).filter(|c: char| c != ',') == digits,
    decreases digits.len(),
{
    let p = |c: char| c != ',';
    if digits.len() <= 3 {
        lemma_filter_digits(digits);
    } else {
        let head = digits.take(digits.len() - 3);
        let tail = digits.skip(digits.len() - 3);
        assert(all_digits(head)) by {
            assert forall|i: int| 0 <= i < head.len() implies is_digit(#[trigger] head[i]) by {
                assert(is_digit(digits[i]));
            }
        }
        assert(all_digits(tail)) by {
            assert forall|i: int| 0 <= i < tail.len() implies is_digit(#[trigger] tail[i]) by {
                assert(is_digit(digits[digits.len() - 3 + i]));
            }
        }
        grouping_only_adds_commas(head);
        lemma_filter_digits(tail);
        Seq::filter_distributes_over_add(grouped(head).push(','), tail, p);
        grouped(head).lemma_filter_push(',', p);
        assert(head + tail =~= digits);
    }
}

proof fn lemma_filter_digits(digits: Seq<char>)
    requires
        all_digits(digits),
    ensures
        digits.filter(|c: char| c != ',') == digits,
    decreases digits.len(),
{
    reveal(Seq::filter);
    if digits.len() > 0 {
        let init = digits.drop_last();
        assert(all_digits(init)) by {
            assert forall|i: int| 0 <= i < init.len() implies is_digit(#[trigger] init[i]) by {
                assert(is_digit(digits[i]));
            }
        }
        lemma_filter_digits(init);
        assert(is_digit(digits.last()));
        assert(init.push(digits.last()) =~= digits);
    }
}

/// A grouped number, without its commas, reads back as the number.
pub proof fn grouped_numbers_read_back(n: u64)
    ensures
        u64_of(grouped(decimal(n as int)).filter(|c: char| c != ',')) == Some(n),
{
    lemma_written(n as int, 10);
    grouping_only_adds_commas(decimal(n as int));
    crate::number::written_reads_back(n as int, 10, u64::MAX as int);
}

/// Reverting removes exactly the files that applying makes.
pub proof fn reverting_removes_what_applying_made(path: Seq<char>)
    ensures
        steps_of(ActionModel::RevertTweaks).contains(StepModel::Remove { path }) <==> exists|
            text: Seq<char>,
        |
            #[trigger] steps_of(ActionModel::ApplyTweaks).contains(
                StepModel::WriteNew { path, text },
            ),
{
    let apply = steps_of(ActionModel::ApplyTweaks);
    let revert = steps_of(ActionModel::RevertTweaks);
    assert(apply[3] == StepModel::WriteNew { path: SYSCTL_FILE@, text: sysctl_text() });
    assert(apply[4] == StepModel::WriteNew { path: LIMITS_FILE@, text: limits_text() });
    assert(revert[0] == StepModel::Remove { path: SYSCTL_FILE@ });
    assert(revert[1] == StepModel::Remove { path: LIMITS_FILE@ });
    if revert.contains(StepModel::Remove { path }) {
        if path == SYSCTL_FILE@ {
            assert(apply.contains(StepModel::WriteNew { path, text: sysctl_text() }));
        } else {
            assert(apply.contains(StepModel::WriteNew { path, text: limits_text() }));
        }
    }
    if exists|text: Seq<char>| #[trigger] apply.contains(StepModel::WriteNew { path, text }) {
        let text = choose|text: Seq<char>|
            #[trigger] apply.contains(StepModel::WriteNew { path, text });
        let k = choose|k: int| 0 <= k < apply.len() && apply[k] == StepModel::WriteNew { path, text };
        assert(k == 3 || k == 4);
    }
}

/// A setting is asked for until its file holds a good value: at least what games are tested against for
/// the memory mappings, none for the split-lock penalty, at most ten for swapping. The open-file limit
/// is asked for until it is high enough, or is written and waits for the next login.
pub proof fn settings_are_asked_for_until_they_are_good(s: SettingsModel)
    ensures
        needed(s).contains(Tweak::MaxMapCount) <==> !(s.max_map_count is Some && u64_of(
            trim(s.max_map_count->0),
        ) is Some && u64_of(trim(s.max_map_count->0))->0 >= 2_147_483_642),
        needed(s).contains(Tweak::SplitLock) <==> !(s.split_lock_mitigate is Some && u64_of(
            trim(s.split_lock_mitigate->0),
        ) == Some(0u64)),
        needed(s).contains(Tweak::Swappiness) <==> !(s.swappiness is Some && u64_of(trim(s.swappiness->0))
            is Some && u64_of(trim(s.swappiness->0))->0 <= 10),
        needed(s).contains(Tweak::FileLimit) <==> !s.limits_file && !(file_limit(s.limits) is Some
            && file_limit(s.limits)->0 >= 524_288),
        needed(s).no_duplicates(),
{
    let p = |t: Tweak| !applied(t, s);
    crate::lists::lemma_filter_members(all_tweaks(), p);
    let all = all_tweaks();
    assert(all[0] == Tweak::MaxMapCount && all[1] == Tweak::SplitLock && all[2] == Tweak::Swappiness
        && all[3] == Tweak::FileLimit);
    assert(all.contains(Tweak::MaxMapCount) && all.contains(Tweak::SplitLock) && all.contains(
        Tweak::Swappiness,
    ) && all.contains(Tweak::FileLimit));
    reveal(Seq::filter);
    assert(all.take(0) =~= Seq::empty());
    lemma_filter_step(all, 0, p);
    lemma_filter_step(all, 1, p);
    lemma_filter_step(all, 2, p);
    lemma_filter_step(all, 3, p);
    assert(all.take(4) =~= all);
}

/// The settings are shown, and asked for, in one order: the memory mappings first and the open-file
/// limit last.
pub proof fn the_map_count_comes_first(s: SettingsModel)
    ensures
        needed(s).contains(Tweak::MaxMapCount) ==> needed(s)[0] == Tweak::MaxMapCount,
        needed(s).contains(Tweak::FileLimit) ==> needed(s).last() == Tweak::FileLimit,
        needed(s).len() <= 4,
{
    let p = |t: Tweak| !applied(t, s);
    let all = all_tweaks();
    crate::lists::lemma_filter_members(all, p);
    reveal(Seq::filter);
    assert(all.take(0) =~= Seq::empty());
    lemma_filter_step(all, 0, p);
    lemma_filter_step(all, 1, p);
    lemma_filter_step(all, 2, p);
    lemma_filter_step(all, 3, p);
    assert(all.take(4) =~= all);
    if needed(s).contains(Tweak::FileLimit) {
        assert(p(all[3]));
    }
    if needed(s).contains(Tweak::MaxMapCount) {
        assert(p(all[0]));
    }
}

/// The open-file limit is the soft one: the word behind the three of its name, on the first line that
/// begins with them.
pub proof fn the_open_file_limit_is_the_soft_one(text: Seq<char>, i: int)
    requires
        0 <= i < lines(trim(text)).len(),
        "Max open files"@.is_prefix_of(lines(trim(text))[i]),
        forall|j: int| 0 <= j < i ==> !"Max open files"@.is_prefix_of(#[trigger] lines(trim(text))[j]),
    ensures
        words(lines(trim(text))[i]).len() > 3 ==> file_limit(Some(text)) == u64_of(
            words(lines(trim(text))[i])[3],
        ),
        words(lines(trim(text))[i]).len() <= 3 ==> file_limit(Some(text)) is None,
        file_limit(None) is None,
{
    let p = |l: Seq<char>| "Max open files"@.is_prefix_of(l);
    lemma_first_is(lines(trim(text)), p, i);
}

/// What is said of a setting that is to change is what it is now and what it will be, with the digits
/// in groups of three.
pub proof fn a_change_names_both_values(s: SettingsModel, n: u64)
    ensures
        s.max_map_count is Some && u64_of(trim(s.max_map_count->0)) == Some(n) && n < 2_147_483_642
            ==> change_of(Tweak::MaxMapCount, s) == grouped(decimal(n as int)) + " → "@ + grouped(
            decimal(2_147_483_642),
        ),
        s.split_lock_mitigate is Some && u64_of(trim(s.split_lock_mitigate->0)) == Some(n) && n > 0
            ==> change_of(Tweak::SplitLock, s) == grouped(decimal(n as int)) + " → "@ + grouped(decimal(0)),
        s.swappiness is Some && u64_of(trim(s.swappiness->0)) == Some(n) && n > 10 ==> change_of(
            Tweak::Swappiness,
            s,
        ) == grouped(decimal(n as int)) + " → "@ + grouped(decimal(10)),
        file_limit(s.limits) == Some(n) && n < 524_288 && !s.limits_file ==> change_of(Tweak::FileLimit, s)
            == grouped(decimal(n as int)) + " → "@ + grouped(decimal(524_288)),
{
}

proof fn lemma_setting_line(key: Seq<char>, n: int)
    requires
        0 <= n,
        !key.contains('\n'),
    ensures
        !(key + " = "@ + decimal(n)).contains('\n'),
        (key + " = "@ + decimal(n)).last() != '\r',
{
    reveal_strlit(" = ");
    lemma_written(n, 10);
    let line = key + " = "@ + decimal(n);
    let at = key.len() + 3;
    assert(line.last() == decimal(n).last());
    assert(is_digit(decimal(n).last()));
    if line.contains('\n') {
        let k = choose|k: int| 0 <= k < line.len() && line[k] == '\n';
        if k < key.len() {
            assert(key[k] == '\n');
        } else if k >= at {
            assert(line[k] == decimal(n)[k - at]);
            assert(is_digit(decimal(n)[k - at]));
        } else {
            assert(line[k] == " = "@[k - key.len()]);
        }
    }
}

proof fn lemma_limit_line(head: Seq<char>, n: int)
    requires
        0 <= n,
        !head.contains('\n'),
    ensures
        !(head + decimal(n)).contains('\n'),
        (head + decimal(n)).last() != '\r',
{
    lemma_written(n, 10);
    let line = head + decimal(n);
    assert(line.last() == decimal(n).last());
    assert(is_digit(decimal(n).last()));
    if line.contains('\n') {
        let k = choose|k: int| 0 <= k < line.len() && line[k] == '\n';
        if k < head.len() {
            assert(head[k] == '\n');
        } else {
            assert(line[k] == decimal(n)[k - head.len()]);
            assert(is_digit(decimal(n)[k - head.len()]));
        }
    }
}

proof fn lemma_sysctl_comment()
    ensures
        "# Written by Raven Gaming. Delete this file to restore the system's\n# own settings, or use the Revert button in the app.\n"@ == "# Written by Raven Gaming. Delete this file to restore the system's"@.push('\n') + "# own settings, or use the Revert button in the app."@.push('\n'),
        !"# Written by Raven Gaming. Delete this file to restore the system's"@.contains('\n'),
        !"# own settings, or use the Revert button in the app."@.contains('\n'),
        "# Written by Raven Gaming. Delete this file to restore the system's"@.last() != '\r',
        "# own settings, or use the Revert button in the app."@.last() != '\r',
        "# Written by Raven Gaming. Delete this file to restore the system's"@[0] == '#',
        "# own settings, or use the Revert button in the app."@[0] == '#',
{
    reveal_strlit("# Written by Raven Gaming. Delete this file to restore the system's\n# own settings, or use the Revert button in the app.\n");
    reveal_strlit("# Written by Raven Gaming. Delete this file to restore the system's");
    reveal_strlit("# own settings, or use the Revert button in the app.");
    let a = "# Written by Raven Gaming. Delete this file to restore the system's"@;
    let b = "# own settings, or use the Revert button in the app."@;
    assert(a[0] != '\n' && a[1] != '\n' && a[2] != '\n' && a[3] != '\n' && a[4] != '\n' && a[5] != '\n' && a[6] != '\n' && a[7] != '\n');
    assert(a[8] != '\n' && a[9] != '\n' && a[10] != '\n' && a[11] != '\n' && a[12] != '\n' && a[13] != '\n' && a[14] != '\n' && a[15] != '\n');
    assert(a[16] != '\n' && a[17] != '\n' && a[18] != '\n' && a[19] != '\n' && a[20] != '\n' && a[21] != '\n' && a[22] != '\n' && a[23] != '\n');
    assert(a[24] != '\n' && a[25] != '\n' && a[26] != '\n' && a[27] != '\n' && a[28] != '\n' && a[29] != '\n' && a[30] != '\n' && a[31] != '\n');
    assert(a[32] != '\n' && a[33] != '\n' && a[34] != '\n' && a[35] != '\n' && a[36] != '\n' && a[37] != '\n' && a[38] != '\n' && a[39] != '\n');
    assert(a[40] != '\n' && a[41] != '\n' && a[42] != '\n' && a[43] != '\n' && a[44] != '\n' && a[45] != '\n' && a[46] != '\n' && a[47] != '\n');
    assert(a[48] != '\n' && a[49] != '\n' && a[50] != '\n' && a[51] != '\n' && a[52] != '\n' && a[53] != '\n' && a[54] != '\n' && a[55] != '\n');
    assert(a[56] != '\n' && a[57] != '\n' && a[58] != '\n' && a[59] != '\n' && a[60] != '\n' && a[61] != '\n' && a[62] != '\n' && a[63] != '\n');
    assert(a[64] != '\n' && a[65] != '\n' && a[66] != '\n');
    assert(b[0] != '\n' && b[1] != '\n' && b[2] != '\n' && b[3] != '\n' && b[4] != '\n' && b[5] != '\n' && b[6] != '\n' && b[7] != '\n');
    assert(b[8] != '\n' && b[9] != '\n' && b[10] != '\n' && b[11] != '\n' && b[12] != '\n' && b[13] != '\n' && b[14] != '\n' && b[15] != '\n');
    assert(b[16] != '\n' && b[17] != '\n' && b[18] != '\n' && b[19] != '\n' && b[20] != '\n' && b[21] != '\n' && b[22] != '\n' && b[23] != '\n');
    assert(b[24] != '\n' && b[25] != '\n' && b[26] != '\n' && b[27] != '\n' && b[28] != '\n' && b[29] != '\n' && b[30] != '\n' && b[31] != '\n');
    assert(b[32] != '\n' && b[33] != '\n' && b[34] != '\n' && b[35] != '\n' && b[36] != '\n' && b[37] != '\n' && b[38] != '\n' && b[39] != '\n');
    assert(b[40] != '\n' && b[41] != '\n' && b[42] != '\n' && b[43] != '\n' && b[44] != '\n' && b[45] != '\n' && b[46] != '\n' && b[47] != '\n');
    assert(b[48] != '\n' && b[49] != '\n' && b[50] != '\n' && b[51] != '\n');
    assert("# Written by Raven Gaming. Delete this file to restore the system's\n# own settings, or use the Revert button in the app.\n"@ =~= a.push('\n') + b.push('\n'));
}

/// What is written to keep the settings after a reboot is two lines of comment and a line for each of the
/// three settings that the kernel keeps: its key, and the value that it is given now as well.
pub proof fn the_settings_file_holds_every_setting()
    ensures
        lines(sysctl_text()).len() == 5,
        lines(sysctl_text())[0][0] == '#',
        lines(sysctl_text())[1][0] == '#',
        lines(sysctl_text())[2] == "vm.max_map_count"@ + " = "@ + decimal(2_147_483_642),
        lines(sysctl_text())[3] == "kernel.split_lock_mitigate"@ + " = "@ + decimal(0),
        lines(sysctl_text())[4] == "vm.swappiness"@ + " = "@ + decimal(10),
{
    reveal_strlit("\n");
    reveal_strlit("vm.max_map_count");
    reveal_strlit("kernel.split_lock_mitigate");
    reveal_strlit("vm.swappiness");
    lemma_sysctl_comment();
    let a = "# Written by Raven Gaming. Delete this file to restore the system's"@;
    let b = "# own settings, or use the Revert button in the app."@;
    let l1 = "vm.max_map_count"@ + " = "@ + decimal(2_147_483_642);
    let l2 = "kernel.split_lock_mitigate"@ + " = "@ + decimal(0);
    let l3 = "vm.swappiness"@ + " = "@ + decimal(10);
    assert("vm.max_map_count"@[0] != '\n' && "vm.max_map_count"@[1] != '\n' && "vm.max_map_count"@[2] != '\n' && "vm.max_map_count"@[3] != '\n' && "vm.max_map_count"@[4] != '\n' && "vm.max_map_count"@[5] != '\n' && "vm.max_map_count"@[6] != '\n' && "vm.max_map_count"@[7] != '\n');
    assert("vm.max_map_count"@[8] != '\n' && "vm.max_map_count"@[9] != '\n' && "vm.max_map_count"@[10] != '\n' && "vm.max_map_count"@[11] != '\n' && "vm.max_map_count"@[12] != '\n' && "vm.max_map_count"@[13] != '\n' && "vm.max_map_count"@[14] != '\n' && "vm.max_map_count"@[15] != '\n');
    assert("kernel.split_lock_mitigate"@[0] != '\n' && "kernel.split_lock_mitigate"@[1] != '\n' && "kernel.split_lock_mitigate"@[2] != '\n' && "kernel.split_lock_mitigate"@[3] != '\n' && "kernel.split_lock_mitigate"@[4] != '\n' && "kernel.split_lock_mitigate"@[5] != '\n' && "kernel.split_lock_mitigate"@[6] != '\n' && "kernel.split_lock_mitigate"@[7] != '\n');
    assert("kernel.split_lock_mitigate"@[8] != '\n' && "kernel.split_lock_mitigate"@[9] != '\n' && "kernel.split_lock_mitigate"@[10] != '\n' && "kernel.split_lock_mitigate"@[11] != '\n' && "kernel.split_lock_mitigate"@[12] != '\n' && "kernel.split_lock_mitigate"@[13] != '\n' && "kernel.split_lock_mitigate"@[14] != '\n' && "kernel.split_lock_mitigate"@[15] != '\n');
    assert("kernel.split_lock_mitigate"@[16] != '\n' && "kernel.split_lock_mitigate"@[17] != '\n' && "kernel.split_lock_mitigate"@[18] != '\n' && "kernel.split_lock_mitigate"@[19] != '\n' && "kernel.split_lock_mitigate"@[20] != '\n' && "kernel.split_lock_mitigate"@[21] != '\n' && "kernel.split_lock_mitigate"@[22] != '\n' && "kernel.split_lock_mitigate"@[23] != '\n');
    assert("kernel.split_lock_mitigate"@[24] != '\n' && "kernel.split_lock_mitigate"@[25] != '\n');
    assert("vm.swappiness"@[0] != '\n' && "vm.swappiness"@[1] != '\n' && "vm.swappiness"@[2] != '\n' && "vm.swappiness"@[3] != '\n' && "vm.swappiness"@[4] != '\n' && "vm.swappiness"@[5] != '\n' && "vm.swappiness"@[6] != '\n' && "vm.swappiness"@[7] != '\n');
    assert("vm.swappiness"@[8] != '\n' && "vm.swappiness"@[9] != '\n' && "vm.swappiness"@[10] != '\n' && "vm.swappiness"@[11] != '\n' && "vm.swappiness"@[12] != '\n');
    lemma_setting_line("vm.max_map_count"@, 2_147_483_642);
    lemma_setting_line("kernel.split_lock_mitigate"@, 0);
    lemma_setting_line("vm.swappiness"@, 10);
    let none = Seq::<char>::empty();
    let r3 = l3.push('\n') + none;
    let r2 = l2.push('\n') + r3;
    let r1 = l1.push('\n') + r2;
    let rb = b.push('\n') + r1;
    assert(sysctl_line(Tweak::MaxMapCount) =~= l1.push('\n'));
    assert(sysctl_line(Tweak::SplitLock) =~= l2.push('\n'));
    assert(sysctl_line(Tweak::Swappiness) =~= l3.push('\n'));
    assert(sysctl_text() =~= a.push('\n') + rb);
    crate::text::lines_come_apart(a, rb);
    crate::text::lines_come_apart(b, r1);
    crate::text::lines_come_apart(l1, r2);
    crate::text::lines_come_apart(l2, r3);
    crate::text::lines_come_apart(l3, none);
    assert(lines(sysctl_text()) =~= seq![a, b, l1, l2, l3]);
}

/// What is written for the open-file limit sets it for everybody, and both the soft limit, which a
/// session starts with, and the hard one, which it may not go above.
pub proof fn the_limits_file_raises_both_limits()
    ensures
        lines(limits_text()).len() == 3,
        lines(limits_text())[0][0] == '#',
        lines(limits_text())[1] == "* soft nofile "@ + decimal(524_288),
        lines(limits_text())[2] == "* hard nofile "@ + decimal(524_288),
{
    let a = "# Written by Raven Gaming, for Wine and Proton's esync."@;
    let s1 = "* soft nofile "@;
    let s2 = "* hard nofile "@;
    reveal_strlit("# Written by Raven Gaming, for Wine and Proton's esync.\n* soft nofile ");
    reveal_strlit("# Written by Raven Gaming, for Wine and Proton's esync.");
    reveal_strlit("* soft nofile ");
    reveal_strlit("* hard nofile ");
    reveal_strlit("\n* hard nofile ");
    reveal_strlit("\n");
    assert(a[0] != '\n' && a[1] != '\n' && a[2] != '\n' && a[3] != '\n' && a[4] != '\n' && a[5] != '\n' && a[6] != '\n' && a[7] != '\n');
    assert(a[8] != '\n' && a[9] != '\n' && a[10] != '\n' && a[11] != '\n' && a[12] != '\n' && a[13] != '\n' && a[14] != '\n' && a[15] != '\n');
    assert(a[16] != '\n' && a[17] != '\n' && a[18] != '\n' && a[19] != '\n' && a[20] != '\n' && a[21] != '\n' && a[22] != '\n' && a[23] != '\n');
    assert(a[24] != '\n' && a[25] != '\n' && a[26] != '\n' && a[27] != '\n' && a[28] != '\n' && a[29] != '\n' && a[30] != '\n' && a[31] != '\n');
    assert(a[32] != '\n' && a[33] != '\n' && a[34] != '\n' && a[35] != '\n' && a[36] != '\n' && a[37] != '\n' && a[38] != '\n' && a[39] != '\n');
    assert(a[40] != '\n' && a[41] != '\n' && a[42] != '\n' && a[43] != '\n' && a[44] != '\n' && a[45] != '\n' && a[46] != '\n' && a[47] != '\n');
    assert(a[48] != '\n' && a[49] != '\n' && a[50] != '\n' && a[51] != '\n' && a[52] != '\n' && a[53] != '\n' && a[54] != '\n');
    assert(s1[0] != '\n' && s1[1] != '\n' && s1[2] != '\n' && s1[3] != '\n' && s1[4] != '\n' && s1[5] != '\n' && s1[6] != '\n' && s1[7] != '\n');
    assert(s1[8] != '\n' && s1[9] != '\n' && s1[10] != '\n' && s1[11] != '\n' && s1[12] != '\n' && s1[13] != '\n');
    assert(s2[0] != '\n' && s2[1] != '\n' && s2[2] != '\n' && s2[3] != '\n' && s2[4] != '\n' && s2[5] != '\n' && s2[6] != '\n' && s2[7] != '\n');
    assert(s2[8] != '\n' && s2[9] != '\n' && s2[10] != '\n' && s2[11] != '\n' && s2[12] != '\n' && s2[13] != '\n');
    lemma_limit_line(s1, 524_288);
    lemma_limit_line(s2, 524_288);
    let none = Seq::<char>::empty();
    let l1 = s1 + decimal(524_288);
    let l2 = s2 + decimal(524_288);
    let r2 = l2.push('\n') + none;
    let r1 = l1.push('\n') + r2;
    assert("# Written by Raven Gaming, for Wine and Proton's esync.\n* soft nofile "@ =~= a.push('\n') + s1);
    assert("\n* hard nofile "@ =~= seq!['\n'] + s2);
    assert(limits_text() =~= a.push('\n') + r1);
    crate::text::lines_come_apart(a, r1);
    crate::text::lines_come_apart(l1, r2);
    crate::text::lines_come_apart(l2, none);
    assert(lines(limits_text()) =~= seq![a, l1, l2]);
}

/// Applying the settings puts each of the kernel's three in force where the kernel keeps it, and writes
/// the two files that keep them and the open-file limit after a reboot; the values in force are those
/// that are kept. It does nothing else.
pub proof fn applying_sets_now_what_it_keeps(step: StepModel)
    ensures
        steps_of(ActionModel::ApplyTweaks).contains(step) <==> {
            ||| step == StepModel::Write {
                path: "/proc/sys/vm/max_map_count"@,
                text: decimal(2_147_483_642),
            }
            ||| step == StepModel::Write {
                path: "/proc/sys/kernel/split_lock_mitigate"@,
                text: decimal(0),
            }
            ||| step == StepModel::Write { path: "/proc/sys/vm/swappiness"@, text: decimal(10) }
            ||| step == StepModel::WriteNew {
                path: "/etc/sysctl.d/99-raven-gaming.conf"@,
                text: sysctl_text(),
            }
            ||| step == StepModel::WriteNew {
                path: "/etc/security/limits.d/99-raven-gaming.conf"@,
                text: limits_text(),
            }
        },
        steps_of(ActionModel::ApplyTweaks).len() == 5,
{
    reveal_strlit("/proc/sys");
    reveal_strlit("vm.max_map_count");
    reveal_strlit("kernel.split_lock_mitigate");
    reveal_strlit("vm.swappiness");
    reveal_strlit("/proc/sys/vm/max_map_count");
    reveal_strlit("/proc/sys/kernel/split_lock_mitigate");
    reveal_strlit("/proc/sys/vm/swappiness");
    assert(sysctl_file_of("vm.max_map_count"@) =~= "/proc/sys/vm/max_map_count"@);
    assert(sysctl_file_of("kernel.split_lock_mitigate"@) =~= "/proc/sys/kernel/split_lock_mitigate"@);
    assert(sysctl_file_of("vm.swappiness"@) =~= "/proc/sys/vm/swappiness"@);
    let all = steps_of(ActionModel::ApplyTweaks);
    assert(all[0] == StepModel::Write {
        path: "/proc/sys/vm/max_map_count"@,
        text: decimal(2_147_483_642),
    });
    assert(all[1] == StepModel::Write {
        path: "/proc/sys/kernel/split_lock_mitigate"@,
        text: decimal(0),
    });
    assert(all[2] == StepModel::Write { path: "/proc/sys/vm/swappiness"@, text: decimal(10) });
    assert(all[3] == StepModel::WriteNew {
        path: "/etc/sysctl.d/99-raven-gaming.conf"@,
        text: sysctl_text(),
    });
    assert(all[4] == StepModel::WriteNew {
        path: "/etc/security/limits.d/99-raven-gaming.conf"@,
        text: limits_text(),
    });
}

/// Whatever key a setting has, applying writes its value where the kernel keeps the key, and keeps a line
/// that gives the key the same value.
pub proof fn every_setting_is_kept(t: Tweak)
    requires
        key_of(t) is Some,
    ensures
        lines(sysctl_text()).contains(key_of(t)->0 + " = "@ + decimal(wanted_of(t) as int)),
        steps_of(ActionModel::ApplyTweaks).contains(
            StepModel::Write { path: sysctl_file_of(key_of(t)->0), text: decimal(wanted_of(t) as int) },
        ),
        steps_of(ActionModel::ApplyTweaks).contains(
            StepModel::WriteNew { path: "/etc/sysctl.d/99-raven-gaming.conf"@, text: sysctl_text() },
        ),
{
    the_settings_file_holds_every_setting();
    let all = steps_of(ActionModel::ApplyTweaks);
    let kept = lines(sysctl_text());
    assert(all[3] == StepModel::WriteNew {
        path: "/etc/sysctl.d/99-raven-gaming.conf"@,
        text: sysctl_text(),
    });
    match t {
        Tweak::MaxMapCount => {
            assert(all[0] == setting_write(t));
            assert(kept[2] == key_of(t)->0 + " = "@ + decimal(wanted_of(t) as int));
        },
        Tweak::SplitLock => {
            assert(all[1] == setting_write(t));
            assert(kept[3] == key_of(t)->0 + " = "@ + decimal(wanted_of(t) as int));
        },
        Tweak::Swappiness => {
            assert(all[2] == setting_write(t));
            assert(kept[4] == key_of(t)->0 + " = "@ + decimal(wanted_of(t) as int));
        },
        Tweak::FileLimit => {},
    }
}

/// The privileged half knows four commands by name, and does what each is named for: it writes the
/// settings, removes their files, builds modules for the kernel it is given, or holds the clocks of the
/// card it is given.
pub proof fn each_command_does_what_it_is_named_for(
    kernel: Seq<char>,
    card: Seq<char>,
    kernels: Set<Seq<char>>,
    cards: Set<Seq<char>>,
)
    ensures
        action_of(seq!["tweaks"@], kernels, cards) == Ok::<ActionModel, Seq<char>>(
            ActionModel::ApplyTweaks,
        ),
        action_of(seq!["revert-tweaks"@], kernels, cards) == Ok::<ActionModel, Seq<char>>(
            ActionModel::RevertTweaks,
        ),
        is_release(kernel) && kernels.contains(kernel) ==> action_of(
            seq!["dkms-install"@, kernel],
            kernels,
            cards,
        ) == Ok::<ActionModel, Seq<char>>(ActionModel::DkmsInstall { kernel }),
        is_card_name(card) && cards.contains(card) ==> action_of(
            seq!["gpu-mode"@, card, "high"@],
            kernels,
            cards,
        ) == Ok::<ActionModel, Seq<char>>(ActionModel::GpuMode { card, mode: GpuMode::High })
            && action_of(seq!["gpu-mode"@, card, "low"@], kernels, cards) == Ok::<ActionModel, Seq<char>>(
            ActionModel::GpuMode { card, mode: GpuMode::Low },
        ) && action_of(seq!["gpu-mode"@, card, "auto"@], kernels, cards) == Ok::<ActionModel, Seq<char>>(
            ActionModel::GpuMode { card, mode: GpuMode::Auto },
        ),
        steps_of(ActionModel::DkmsInstall { kernel }) == seq![StepModel::Dkms { kernel }],
        steps_of(ActionModel::RevertTweaks) == seq![
            StepModel::Remove { path: "/etc/sysctl.d/99-raven-gaming.conf"@ },
            StepModel::Remove { path: "/etc/security/limits.d/99-raven-gaming.conf"@ },
        ],
{
    lemma_verbs_differ();
    let none = Seq::<char>::empty();
    modes_round_trip(GpuMode::High, none, none);
    modes_round_trip(GpuMode::Low, none, none);
    modes_round_trip(GpuMode::Auto, none, none);
    modes_are_named_as_the_driver_names_them();
    assert(none + "high"@ + none =~= "high"@);
    assert(none + "low"@ + none =~= "low"@);
    assert(none + "auto"@ + none =~= "auto"@);
    assert(seq!["dkms-install"@, kernel].len() == 2);
    assert(seq!["gpu-mode"@, card, "high"@].len() == 3);
}

/// Clocks are held by the names that the driver has for it, and each preset holds those that it is
/// for: the quiet one the lowest and saves power, the fast one the highest, and the one between leaves
/// both to the system.
pub proof fn modes_are_named_as_the_driver_names_them()
    ensures
        mode_value(GpuMode::High) == "high"@,
        mode_value(GpuMode::Low) == "low"@,
        mode_value(GpuMode::Auto) == "auto"@,
        preset_mode(Preset::Quiet) == GpuMode::Low,
        preset_mode(Preset::Balanced) == GpuMode::Auto,
        preset_mode(Preset::Performance) == GpuMode::High,
        profile_of(Preset::Quiet) == "power-saver"@,
        profile_of(Preset::Balanced) == "balanced"@,
        profile_of(Preset::Performance) == "performance"@,
{
}

/// A card's clocks are held through the file of its own device, and what is written there is the name of
/// the mode.
pub proof fn clocks_are_held_in_the_cards_own_file(card: Seq<char>, mode: GpuMode)
    requires
        is_card_name(card),
    ensures
        steps_of(ActionModel::GpuMode { card, mode }) == seq![
            StepModel::Write {
                path: "/sys/class/drm/"@ + card + "/device/power_dpm_force_performance_level"@,
                text: mode_value(mode),
            },
        ],
{
    reveal_strlit("/sys/class/drm");
    reveal_strlit("/sys/class/drm/");
    reveal_strlit("card");
    reveal_strlit("device/power_dpm_force_performance_level");
    reveal_strlit("/device/power_dpm_force_performance_level");
    assert(card.subrange(0, 4) == "card"@);
    assert(card[0] == card.subrange(0, 4)[0]);
    cards_are_cards(card, card.len() - 1);
    assert(mode_file(card) =~= "/sys/class/drm/"@ + card + "/device/power_dpm_force_performance_level"@);
}

/// A change as root goes through `run0` where that can work, else through `pkexec`, and what is run is
/// this program with the arguments of the action, in their order, and nothing after them.
pub proof fn what_runs_as_root_is_this_program(
    a: ActionModel,
    executable: Seq<char>,
    has_run0: bool,
    systemd_booted: bool,
    has_pkexec: bool,
)
    ensures
        root_command_of(a, executable, has_run0, systemd_booted, has_pkexec) is Ok <==> (has_run0
            && systemd_booted) || has_pkexec,
        root_command_of(a, executable, has_run0, systemd_booted, has_pkexec) is Ok ==> {
            let command = root_command_of(a, executable, has_run0, systemd_booted, has_pkexec)->Ok_0;
            let n = command.len() - action_args(a).len();
            &&& command[0] == (if has_run0 && systemd_booted {
                "run0"@
            } else {
                "pkexec"@
            })
            &&& n >= 2 && command[n - 1] == executable
            &&& command.skip(n) == action_args(a)
        },
        action_args(a)[0] == "--apply"@,
        a is ApplyTweaks ==> action_args(a)[1] == "tweaks"@,
        a is RevertTweaks ==> action_args(a)[1] == "revert-tweaks"@,
        a is DkmsInstall ==> action_args(a)[1] == "dkms-install"@ && action_args(a)[2] == a->kernel,
        a is GpuMode ==> action_args(a)[1] == "gpu-mode"@ && action_args(a)[2] == a->card
            && action_args(a)[3] == mode_value(a->mode),
{
    if root_command_of(a, executable, has_run0, systemd_booted, has_pkexec) is Ok {
        let command = root_command_of(a, executable, has_run0, systemd_booted, has_pkexec)->Ok_0;
        let n = command.len() - action_args(a).len();
        assert(command.skip(n) =~= action_args(a));
    }
}

/// A kernel is one that can be named to the privileged half exactly where it is one to 64 letters,
/// digits, points, hyphens, underscores and plus signs, and leads out of no directory.
pub proof fn ordinary_releases_are_accepted(s: Seq<char>)
    ensures
        0 < s.len() <= 64 && is_alnum(s[0]) && (forall|i: int|
            0 <= i < s.len() ==> is_alnum(#[trigger] s[i]) || s[i] == '.' || s[i] == '-' || s[i] == '_'
                || s[i] == '+') ==> is_release(s),
        s.len() == 0 || s.len() > 64 ==> !is_release(s),
        (exists|i: int|
            0 <= i < s.len() && !is_alnum(#[trigger] s[i]) && s[i] != '.' && s[i] != '-' && s[i] != '_'
                && s[i] != '+') ==> !is_release(s),
{
    reveal_strlit(".");
    reveal_strlit("..");
    if exists|i: int|
        0 <= i < s.len() && !is_alnum(#[trigger] s[i]) && s[i] != '.' && s[i] != '-' && s[i] != '_'
            && s[i] != '+' {
        let i = choose|i: int|
            0 <= i < s.len() && !is_alnum(#[trigger] s[i]) && s[i] != '.' && s[i] != '-' && s[i] != '_'
                && s[i] != '+';
        assert(!is_release_char(s[i]));
    }
    if 0 < s.len() <= 64 && is_alnum(s[0]) && (forall|i: int|
        0 <= i < s.len() ==> is_alnum(#[trigger] s[i]) || s[i] == '.' || s[i] == '-' || s[i] == '_'
            || s[i] == '+') {
        assert forall|i: int| 0 <= i < s.len() implies is_release_char(#[trigger] s[i]) by {
            assert(is_alnum(s[i]) || s[i] == '.' || s[i] == '-' || s[i] == '_' || s[i] == '+');
        }
        assert(s[0] != '.');
    }
}

/// A card's name is accepted exactly where it is `card` and a number.
pub proof fn ordinary_cards_are_accepted(digits: Seq<char>)
    ensures
        is_card_name("card"@ + digits) <==> digits.len() > 0 && all_digits(digits),
{
    let s = "card"@ + digits;
    assert(s.skip("card"@.len() as int) =~= digits);
    assert("card"@.is_prefix_of(s)) by {
        assert(s.subrange(0, "card"@.len() as int) =~= "card"@);
    }
}

/// The size of a folder is the sum of the files in it, down to a level: one more file adds its own size,
/// one more folder adds what is in it, and what is below the level counts for nothing.
pub proof fn sizes_add_up(entries: Seq<Tree>, inner: Vec<Tree>, size: u64, depth: int, limit: int)
    ensures
        depth <= limit ==> folder_bytes(entries.push(Tree::File(size)), depth, limit) == folder_bytes(
            entries,
            depth,
            limit,
        ) + size,
        depth <= limit ==> folder_bytes(entries.push(Tree::Folder(inner)), depth, limit) == folder_bytes(
            entries,
            depth,
            limit,
        ) + folder_bytes(inner@, depth + 1, limit),
        folder_bytes(entries.push(Tree::Other), depth, limit) == folder_bytes(entries, depth, limit),
        depth > limit ==> folder_bytes(entries, depth, limit) == 0,
        folder_bytes(Seq::empty(), depth, limit) == 0,
{
    reveal_with_fuel(folder_bytes, 3);
    reveal_with_fuel(tree_bytes, 3);
    assert(entries.push(Tree::File(size)).drop_last() =~= entries);
    assert(entries.push(Tree::Folder(inner)).drop_last() =~= entries);
    assert(entries.push(Tree::Other).drop_last() =~= entries);
}

/// A size is said in the largest unit of 1024 times the one before of which there is at least one, from
/// bytes to terabytes.
pub proof fn sizes_are_said_in_the_largest_unit(v: int)
    requires
        0 <= v,
    ensures
        v < 1024 <==> unit_of(v) == 0,
        unit_of(v) > 0 ==> unit_size(unit_of(v)) <= v,
        0 < unit_of(v) < 4 ==> v < 1024 * unit_size(unit_of(v)),
        unit_size(1) == 1024,
        unit_size(2) == 1024 * unit_size(1),
        unit_size(3) == 1024 * unit_size(2),
        unit_size(4) == 1024 * unit_size(3),
        0 <= unit_of(v) <= 4,
        unit_name(1) == "KB"@ && unit_name(2) == "MB"@ && unit_name(3) == "GB"@ && unit_name(4) == "TB"@,
{
}

/// The last line that says anything is what is shown of a long output: blank lines after it do not count,
/// and nothing before it does.
pub proof fn the_last_word_counts(lines: Seq<Seq<char>>, line: Seq<char>)
    ensures
        trim(line).len() > 0 ==> last_of(lines.push(line)) == Some(trim(line)),
        trim(line).len() == 0 ==> last_of(lines.push(line)) == last_of(lines),
        last_of(Seq::empty()) is None,
{
    assert(lines.push(line).drop_last() =~= lines);
}

/// The profile that a daemon's reply names is its first word; a reply that names none says nothing.
pub proof fn replies_name_a_profile_first(p: Preset, rest: Seq<char>)
    requires
        rest.len() > 0 ==> crate::text::is_space(rest[0]),
    ensures
        replied_preset(Some(profile_of(p) + rest)) == Some(p),
        replied_preset(None) is None,
{
    reveal_strlit("power-saver");
    reveal_strlit("balanced");
    reveal_strlit("performance");
    let w = profile_of(p);
    let none = Seq::<char>::empty();
    assert(forall|i: int| 0 <= i < w.len() ==> !crate::text::is_space(#[trigger] w[i]));
    crate::text::words_come_apart(none, w, rest);
    assert(none + w + rest =~= w + rest);
    presets_and_profiles_agree(p, w);
}

/// Compiled shaders are kept below the cache that the session names, and else below the home directory's.
pub proof fn the_session_says_where_caches_are(home: Option<Seq<char>>, xdg: Option<Seq<char>>)
    ensures
        xdg is Some ==> cache_home(home, xdg) == xdg,
        xdg is None && home is Some ==> cache_home(home, xdg) == Some(join(home->0, ".cache"@)),
        xdg is None && home is None ==> cache_home(home, xdg) is None,
{
}

/// What runs as root says so: the service has a name of its own, and its description is what the action
/// does.
pub proof fn what_runs_as_root_is_described(
    a: ActionModel,
    executable: Seq<char>,
    has_pkexec: bool,
)
    ensures
        root_command_of(a, executable, true, true, has_pkexec) is Ok,
        root_command_of(a, executable, true, true, has_pkexec)->Ok_0.contains(
            "--unit=raven-gaming-apply"@,
        ),
        root_command_of(a, executable, true, true, has_pkexec)->Ok_0.contains(
            "--description="@ + action_text(a),
        ),
        root_command_of(a, executable, true, true, has_pkexec)->Ok_0.len() == action_args(a).len() + 4,
        root_command_of(a, executable, false, true, true)->Ok_0.len() == action_args(a).len() + 2,
{
    let command = root_command_of(a, executable, true, true, has_pkexec)->Ok_0;
    assert(command[1] == "--unit=raven-gaming-apply"@);
    assert(command[2] == "--description="@ + action_text(a));
}

/// A size in a larger unit is said to one place: the tenths that are nearest to it.
pub proof fn sizes_are_said_to_the_nearest_tenth(bytes: u64, unit: int, tenths: int)
    requires
        1024 <= bytes < 0x20_0000_0000_0000,
        unit == unit_of(bytes as int),
        2 * (tenths * unit_size(unit)) < 2 * (10 * bytes) + unit_size(unit),
        2 * (10 * bytes) < 2 * (tenths * unit_size(unit)) + unit_size(unit),
    ensures
        bytes_text(bytes) == decimal(tenths / 10) + "."@ + crate::number::zero_padded(
            decimal(tenths % 10),
            1,
        ) + " "@ + unit_name(unit),
{
    crate::binary::small_numbers_are_exact(bytes as int);
    let size = unit_size(unit);
    let n = 10 * bytes as int;
    crate::binary::rounding_goes_to_the_nearest(n, size);
    let k = nearest(n, size);
    assert(2 * k * size == 2 * (k * size)) by (nonlinear_arith);
    assert(k == tenths) by (nonlinear_arith)
        requires
            size > 0,
            2 * (k * size) <= 2 * n + size,
            2 * n <= 2 * (k * size) + size,
            2 * (tenths * size) < 2 * n + size,
            2 * n < 2 * (tenths * size) + size,
    ;
}

} // verus!
