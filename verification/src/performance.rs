//! The Performance page: how hard the machine may work, and the settings games depend on.
use vstd::prelude::*;
use crate::checks::{Fix, FixModel, State};
use crate::collections::{NameSet, TextMap};
use crate::gpu::{copied, gpu_title, Gpu, GpuModel};
use crate::lists::{lemma_filter_map_step};
use crate::text::{cat2, cat3};
use crate::tune::{
    all_tweaks, applied, bytes_text, change_of, gpu_mode, gpu_mode_path, human_bytes, mode_file,
    mode_of, mode_title, needed, preset_mode, preset_title, presets, tweak_subtitle,
    tweak_title, tweaks, tweaks_needed, tweaks_persisted, Action, ActionModel, GpuMode, Preset,
    Settings, SettingsModel, Tweak,
};
use crate::view::{
    append_item, one_fix, plain_button, plain_row, row, Button, ButtonModel, Item, ItemModel, Press,
    PressModel, Row, RowModel, Trailing, TrailingModel,
};

verus! {

// ---------------------------------------------------------------------------
// Presets
// ---------------------------------------------------------------------------

/// Every preset, and whether it is the active one.
pub open spec fn preset_choices(active: Option<Preset>) -> Seq<(Preset, bool)> {
    seq![
        (Preset::Quiet, active == Some(Preset::Quiet)),
        (Preset::Balanced, active == Some(Preset::Balanced)),
        (Preset::Performance, active == Some(Preset::Performance)),
    ]
}

/// Every preset, and whether it is the active one.
pub fn preset_cards(active: Option<Preset>) -> (r: Vec<(Preset, bool)>)
    ensures
        r@ == preset_choices(active),
{
    let all = presets();
    let mut out: Vec<(Preset, bool)> = Vec::new();
    let mut i: usize = 0;
    while i < all.len()
        invariant
            i <= all.len(),
            all@ == seq![Preset::Quiet, Preset::Balanced, Preset::Performance],
            out@ == preset_choices(active).take(i as int),
        decreases all.len() - i,
    {
        let on: bool = match active {
            Some(p) => p == all[i],
            None => false,
        };
        out.push((all[i], on));
        i = i + 1;
        assert(out@ =~= preset_choices(active).take(i as int));
    }
    assert(out@ =~= preset_choices(active));
    out
}

/// A card has a clock policy.
pub open spec fn is_tunable(g: GpuModel, files: Set<Seq<char>>) -> bool {
    g.card is Some && files.contains(mode_file(g.card->0))
}

/// The names of the cards that have a clock policy.
pub open spec fn tunable_names(gpus: Seq<GpuModel>, files: Set<Seq<char>>) -> Seq<Seq<char>> {
    gpus.filter_map(
        |g: GpuModel|
            if is_tunable(g, files) {
                g.card
            } else {
                None
            },
    )
}

/// The names of the cards that have a clock policy, given the files that exist.
pub fn tunable_cards(gpus: &Vec<Gpu>, files: &NameSet) -> (r: Vec<String>)
    ensures
        r.deep_view() == tunable_names(gpus.deep_view(), files@),
{
    let ghost every = gpus.deep_view();
    let ghost there = files@;
    let ghost f = |g: GpuModel|
        if is_tunable(g, there) {
            g.card
        } else {
            None
        };
    let mut out: Vec<String> = Vec::new();
    let mut i: usize = 0;
    while i < gpus.len()
        invariant
            i <= gpus.len(),
            every == gpus.deep_view(),
            there == files@,
            f == (|g: GpuModel|
                if is_tunable(g, there) {
                    g.card
                } else {
                    None
                }),
            out.deep_view() == every.take(i as int).filter_map(f),
        decreases gpus.len() - i,
    {
        proof {
            lemma_filter_map_step(every, i as int, f);
            assert(every[i as int] == gpus@[i as int].deep_view());
        }
        let ghost before = out.deep_view();
        if gpu_mode_path(&gpus[i], files).is_some() {
            if let Some(card) = &gpus[i].card {
                out.push(card.clone());
                assert(out.deep_view() =~= before.push(card@));
            }
        }
        i = i + 1;
    }
    assert(every.take(i as int) =~= every);
    out
}

/// What a preset does to the cards that have a clock policy.
pub open spec fn actions_of(preset: Preset, names: Seq<Seq<char>>) -> Seq<ActionModel> {
    names.map_values(
        |card: Seq<char>| ActionModel::GpuMode { card, mode: preset_mode(preset) },
    )
}

/// What a preset does to the cards that have a clock policy. It needs root; the power profile does
/// not, and is set before.
pub fn preset_actions(preset: Preset, names: &Vec<String>) -> (r: Vec<Action>)
    ensures
        r.deep_view() == actions_of(preset, names.deep_view()),
{
    let ghost every = names.deep_view();
    let ghost f = |card: Seq<char>| ActionModel::GpuMode { card, mode: preset_mode(preset) };
    let mut out: Vec<Action> = Vec::new();
    let mut i: usize = 0;
    assert(out.deep_view() =~= every.take(0).map_values(f));
    while i < names.len()
        invariant
            i <= names.len(),
            every == names.deep_view(),
            f == (|card: Seq<char>| ActionModel::GpuMode { card, mode: preset_mode(preset) }),
            out.deep_view() == every.take(i as int).map_values(f),
        decreases names.len() - i,
    {
        let ghost before = out.deep_view();
        assert(every[i as int] == names@[i as int]@);
        out.push(Action::GpuMode { card: names[i].clone(), mode: preset.gpu_mode() });
        assert(out.deep_view() =~= before.push(f(every[i as int])));
        i = i + 1;
        assert(out.deep_view() =~= every.take(i as int).map_values(f));
    }
    assert(every.take(i as int) =~= every);
    out
}

/// What is said when a preset is set.
pub fn preset_toast(preset: Preset) -> (r: String)
    ensures
        r@ == preset_title(preset) + " mode"@,
{
    cat2(preset.title(), " mode")
}

// ---------------------------------------------------------------------------
// Clocks
// ---------------------------------------------------------------------------

/// What is shown of the clock policy of one card.
#[derive(Debug, PartialEq, Eq)]
pub struct ClockRow {
    pub title: String,
    pub text: &'static str,
    pub current: Option<GpuMode>,
    pub card: Option<String>,
}

/// What is shown of the clock policy of one card.
#[verifier::ext_equal]
pub struct ClockModel {
    pub title: Seq<char>,
    pub text: Seq<char>,
    pub current: Option<GpuMode>,
    pub card: Option<Seq<char>>,
}

impl DeepView for ClockRow {
    type V = ClockModel;

    open spec fn deep_view(&self) -> ClockModel {
        ClockModel {
            title: self.title@,
            text: self.text@,
            current: self.current,
            card: self.card.deep_view(),
        }
    }
}

/// The clock policy of a card, by the files that could be read: each file's text under its path.
pub open spec fn policy_of(g: GpuModel, files: Set<Seq<char>>, texts: Map<Seq<char>, Seq<char>>) -> Option<
    GpuMode,
> {
    if is_tunable(g, files) && texts.contains_key(mode_file(g.card->0)) {
        mode_of(crate::text::trim(texts[mode_file(g.card->0)]))
    } else {
        None
    }
}

/// The clock policy of a card.
pub fn clock_policy(gpu: &Gpu, files: &NameSet, texts: &TextMap) -> (r: Option<GpuMode>)
    ensures
        r == policy_of(gpu.deep_view(), files@, texts@),
{
    match gpu_mode_path(gpu, files) {
        Some(path) => match texts.get(&path) {
            Some(text) => gpu_mode(Some(text)),
            None => None,
        },
        None => None,
    }
}

/// A clock policy in words.
pub open spec fn policy_text(mode: Option<GpuMode>) -> Seq<char> {
    match mode {
        Some(GpuMode::High) => "Held at maximum clocks."@,
        Some(GpuMode::Low) => "Held at minimum clocks."@,
        Some(GpuMode::Auto) => "The driver is choosing the clocks."@,
        None => "The current policy could not be read."@,
    }
}

/// What is shown of the clock policy of one card.
pub open spec fn clock_row_of(
    g: GpuModel,
    files: Set<Seq<char>>,
    texts: Map<Seq<char>, Seq<char>>,
) -> ClockModel {
    ClockModel {
        title: gpu_title(g),
        text: policy_text(policy_of(g, files, texts)),
        current: policy_of(g, files, texts),
        card: g.card,
    }
}

/// What is shown of the clock policy of one card.
pub fn gpu_mode_row(gpu: &Gpu, files: &NameSet, texts: &TextMap) -> (r: ClockRow)
    ensures
        r.deep_view() == clock_row_of(gpu.deep_view(), files@, texts@),
{
    let current = clock_policy(gpu, files, texts);
    let text: &'static str = match current {
        Some(GpuMode::High) => "Held at maximum clocks.",
        Some(GpuMode::Low) => "Held at minimum clocks.",
        Some(GpuMode::Auto) => "The driver is choosing the clocks.",
        None => "The current policy could not be read.",
    };
    ClockRow { title: gpu.title(), text, current, card: copied(&gpu.card) }
}

/// The rows of the cards that have a clock policy.
pub open spec fn clock_list(
    gpus: Seq<GpuModel>,
    files: Set<Seq<char>>,
    texts: Map<Seq<char>, Seq<char>>,
) -> Seq<ClockModel> {
    gpus.filter_map(
        |g: GpuModel|
            if is_tunable(g, files) {
                Some(clock_row_of(g, files, texts))
            } else {
                None
            },
    )
}

/// The rows of the cards that have a clock policy.
pub fn clock_rows(gpus: &Vec<Gpu>, files: &NameSet, texts: &TextMap) -> (r: Vec<ClockRow>)
    ensures
        r.deep_view() == clock_list(gpus.deep_view(), files@, texts@),
{
    let ghost every = gpus.deep_view();
    let ghost there = files@;
    let ghost held = texts@;
    let ghost f = |g: GpuModel|
        if is_tunable(g, there) {
            Some(clock_row_of(g, there, held))
        } else {
            None
        };
    let mut out: Vec<ClockRow> = Vec::new();
    let mut i: usize = 0;
    while i < gpus.len()
        invariant
            i <= gpus.len(),
            every == gpus.deep_view(),
            there == files@,
            held == texts@,
            f == (|g: GpuModel|
                if is_tunable(g, there) {
                    Some(clock_row_of(g, there, held))
                } else {
                    None
                }),
            out.deep_view() == every.take(i as int).filter_map(f),
        decreases gpus.len() - i,
    {
        proof {
            lemma_filter_map_step(every, i as int, f);
            assert(every[i as int] == gpus@[i as int].deep_view());
        }
        let ghost before = out.deep_view();
        if gpu_mode_path(&gpus[i], files).is_some() {
            out.push(gpu_mode_row(&gpus[i], files, texts));
            assert(out.deep_view() =~= before.push(clock_row_of(every[i as int], there, held)));
        }
        i = i + 1;
    }
    assert(every.take(i as int) =~= every);
    out
}

/// What follows when a clock policy is chosen.
#[derive(Debug, PartialEq, Eq)]
pub enum ClockStep {
    /// Nothing changes.
    Ignore,
    /// The card has no policy to set.
    NoPolicy,
    /// The policy is set, and this is said of it.
    Run { what: String, action: Action },
}

/// What follows when a clock policy is chosen: nothing where it is switched off or is the current
/// one.
pub fn choose_clocks(
    switched_on: bool,
    current: Option<GpuMode>,
    mode: GpuMode,
    card: &Option<String>,
) -> (r: ClockStep)
    ensures
        r is Ignore == (!switched_on || current == Some(mode)),
        r is NoPolicy == (switched_on && current != Some(mode) && card is None),
        r is Run ==> r->what@ == mode_title(mode) + " clocks"@ && r->action.deep_view()
            == (ActionModel::GpuMode { card: card->0@, mode }),
{
    let same: bool = match current {
        Some(c) => c == mode,
        None => false,
    };
    if !switched_on || same {
        return ClockStep::Ignore;
    }
    match card {
        Some(name) => ClockStep::Run {
            what: cat2(mode.title(), " clocks"),
            action: Action::GpuMode { card: name.clone(), mode },
        },
        None => ClockStep::NoPolicy,
    }
}

// ---------------------------------------------------------------------------
// Settings
// ---------------------------------------------------------------------------

/// The row of a setting.
pub open spec fn tweak_row(t: Tweak, s: SettingsModel) -> RowModel {
    RowModel {
        state: if applied(t, s) {
            State::Good
        } else {
            State::Advisory
        },
        title: tweak_title(t),
        detail: tweak_subtitle(t) + "\n"@ + change_of(t, s),
        trailing: if applied(t, s) {
            TrailingModel::Badge("Set"@, "installed"@)
        } else {
            TrailingModel::Badge("Default"@, "neutral"@)
        },
    }
}

/// The files that settings are persisted in are there.
pub open spec fn is_persisted(s: SettingsModel) -> bool {
    s.sysctl_file || s.limits_file
}

/// The buttons under the settings: one that applies them, and one that undoes it where that was
/// done.
pub open spec fn tweak_buttons(s: SettingsModel) -> Seq<ButtonModel> {
    let done = needed(s).len() == 0;
    seq![
        ButtonModel {
            label: if done {
                "All settings applied"@
            } else {
                "Apply these settings"@
            },
            suggested: true,
            sensitive: !done,
            tip: None,
            press: PressModel::Fixes(seq![FixModel::ApplyTweaks]),
        },
    ] + (if is_persisted(s) {
        seq![plain_button("Restore the system's own settings"@, false, PressModel::Revert)]
    } else {
        Seq::empty()
    })
}

/// What is said of where settings are kept.
pub open spec fn persistence_note(s: SettingsModel) -> Seq<char> {
    if is_persisted(s) {
        "These are written to /etc/sysctl.d/99-raven-gaming.conf and /etc/security/limits.d/99-raven-gaming.conf, so they survive a reboot. The open-file limit takes effect at your next login."@
    } else {
        "Applying writes one file in /etc/sysctl.d and one in /etc/security/limits.d, both named for this app, so undoing everything is deleting two files."@
    }
}

/// The rows of the settings, the buttons under them, and where they are kept.
pub open spec fn tweak_items(s: SettingsModel) -> Seq<ItemModel> {
    all_tweaks().map_values(|t: Tweak| ItemModel::Row(tweak_row(t, s))) + seq![
        ItemModel::Buttons(tweak_buttons(s)),
        ItemModel::Note(persistence_note(s), "note"@),
    ]
}

fn row_of_tweak(tweak: Tweak, settings: &Settings) -> (r: Row)
    ensures
        r.deep_view() == tweak_row(tweak, settings.deep_view()),
{
    let on: bool = tweak.is_applied(settings);
    let detail = cat3(tweak.subtitle(), "\n", &tweak.change_text(settings));
    if on {
        Row {
            state: State::Good,
            title: String::from_str(tweak.title()),
            detail,
            trailing: Trailing::Badge { text: "Set", class: "installed" },
        }
    } else {
        Row {
            state: State::Advisory,
            title: String::from_str(tweak.title()),
            detail,
            trailing: Trailing::Badge { text: "Default", class: "neutral" },
        }
    }
}

/// The rows of the settings, the buttons under them, and where they are kept.
pub fn tweak_section(settings: &Settings) -> (r: Vec<Item>)
    ensures
        r.deep_view() == tweak_items(settings.deep_view()),
{
    let ghost s = settings.deep_view();
    let all = tweaks();
    let ghost every = all@;
    let ghost f = |t: Tweak| ItemModel::Row(tweak_row(t, s));
    let mut items: Vec<Item> = Vec::new();
    let mut i: usize = 0;
    assert(items.deep_view() =~= every.take(0).map_values(f));
    while i < all.len()
        invariant
            i <= all.len(),
            s == settings.deep_view(),
            every == all@,
            f == (|t: Tweak| ItemModel::Row(tweak_row(t, s))),
            items.deep_view() == every.take(i as int).map_values(f),
        decreases all.len() - i,
    {
        let ghost before = items.deep_view();
        append_item(&mut items, Item::Row(row_of_tweak(all[i], settings)));
        assert(items.deep_view() =~= before.push(f(every[i as int])));
        i = i + 1;
        assert(items.deep_view() =~= every.take(i as int).map_values(f));
    }
    assert(every.take(i as int) =~= every);
    let done: bool = tweaks_needed(settings).len() == 0;
    let kept: bool = tweaks_persisted(settings);
    let mut buttons: Vec<Button> = Vec::new();
    buttons.push(
        Button {
            label: String::from_str(
                if done {
                    "All settings applied"
                } else {
                    "Apply these settings"
                },
            ),
            suggested: true,
            sensitive: !done,
            tip: None,
            press: Press::Fixes(one_fix(Fix::ApplyTweaks)),
        },
    );
    if kept {
        buttons.push(
            crate::view::button("Restore the system's own settings", false, Press::Revert),
        );
    }
    assert(buttons.deep_view() =~= tweak_buttons(s));
    append_item(&mut items, Item::Buttons(buttons));
    let note: &str = if kept {
        "These are written to /etc/sysctl.d/99-raven-gaming.conf and /etc/security/limits.d/99-raven-gaming.conf, so they survive a reboot. The open-file limit takes effect at your next login."
    } else {
        "Applying writes one file in /etc/sysctl.d and one in /etc/security/limits.d, both named for this app, so undoing everything is deleting two files."
    };
    append_item(&mut items, Item::Note { text: String::from_str(note), class: "note" });
    assert(items.deep_view() =~= tweak_items(s));
    items
}

// ---------------------------------------------------------------------------
// Shader cache
// ---------------------------------------------------------------------------

/// The row of a shader cache: where it is, how large, and a button that clears it.
pub open spec fn cache_row(cache: (Seq<char>, u64)) -> RowModel {
    RowModel {
        state: State::Good,
        title: cache.0,
        detail: bytes_text(cache.1),
        trailing: TrailingModel::Button(
            ButtonModel {
                label: "Clear"@,
                suggested: false,
                sensitive: true,
                tip: Some(
                    "Deletes the cached shaders. Games rebuild them, so the next run of each game will stutter once."@,
                ),
                press: PressModel::ClearCache(cache.0),
            },
        ),
    }
}

/// The rows of the shader caches.
pub open spec fn cache_list(caches: Seq<(Seq<char>, u64)>) -> Seq<RowModel> {
    if caches.len() == 0 {
        seq![
            plain_row(
                State::Good,
                "Nothing cached yet"@,
                "No shader cache has been written. One appears the first time a game runs."@,
            ),
        ]
    } else {
        caches.map_values(|cache: (Seq<char>, u64)| cache_row(cache))
    }
}

/// The rows of the shader caches, from where each is and how large.
pub fn shader_cache_section(caches: &Vec<(String, u64)>) -> (r: Vec<Row>)
    ensures
        r.deep_view() == cache_list(caches.deep_view()),
{
    let ghost every = caches.deep_view();
    let mut rows: Vec<Row> = Vec::new();
    if caches.len() == 0 {
        rows.push(
            row(
                State::Good,
                "Nothing cached yet",
                "No shader cache has been written. One appears the first time a game runs.",
            ),
        );
        assert(rows.deep_view() =~= cache_list(every));
        return rows;
    }
    let ghost f = |cache: (Seq<char>, u64)| cache_row(cache);
    let mut i: usize = 0;
    assert(rows.deep_view() =~= every.take(0).map_values(f));
    while i < caches.len()
        invariant
            i <= caches.len(),
            every == caches.deep_view(),
            f == (|cache: (Seq<char>, u64)| cache_row(cache)),
            rows.deep_view() == every.take(i as int).map_values(f),
        decreases caches.len() - i,
    {
        let ghost before = rows.deep_view();
        assert(every[i as int] == (caches@[i as int].0@, caches@[i as int].1));
        let clear = Button {
            label: String::from_str("Clear"),
            suggested: false,
            sensitive: true,
            tip: Some(
                "Deletes the cached shaders. Games rebuild them, so the next run of each game will stutter once.",
            ),
            press: Press::ClearCache(caches[i].0.clone()),
        };
        rows.push(
            Row {
                state: State::Good,
                title: caches[i].0.clone(),
                detail: human_bytes(caches[i].1),
                trailing: Trailing::Button(clear),
            },
        );
        assert(rows.deep_view() =~= before.push(f(every[i as int])));
        i = i + 1;
        assert(rows.deep_view() =~= every.take(i as int).map_values(f));
    }
    assert(every.take(i as int) =~= every);
    rows
}

// ---------------------------------------------------------------------------
// The page
// ---------------------------------------------------------------------------

/// The Performance page.
#[derive(Debug, PartialEq, Eq)]
pub struct PerformancePage {
    pub presets: Vec<(Preset, bool)>,
    /// What is said where no power profile can be set.
    pub note: Option<&'static str>,
    pub clocks: Vec<ClockRow>,
    pub settings: Vec<Item>,
    pub caches: Vec<Row>,
}

/// What the Performance page shows.
#[verifier::ext_equal]
pub struct PerformanceModel {
    pub presets: Seq<(Preset, bool)>,
    pub note: Option<Seq<char>>,
    pub clocks: Seq<ClockModel>,
    pub settings: Seq<ItemModel>,
    pub caches: Seq<RowModel>,
}

impl DeepView for PerformancePage {
    type V = PerformanceModel;

    open spec fn deep_view(&self) -> PerformanceModel {
        PerformanceModel {
            presets: self.presets@,
            note: self.note.deep_view(),
            clocks: self.clocks.deep_view(),
            settings: self.settings.deep_view(),
            caches: self.caches.deep_view(),
        }
    }
}

/// The Performance page: the presets and which is active, the cards with a clock policy, the
/// settings, and the shader caches.
pub fn performance_page(
    active: Option<Preset>,
    gpus: &Vec<Gpu>,
    files: &NameSet,
    texts: &TextMap,
    settings: &Settings,
    caches: &Vec<(String, u64)>,
) -> (r: PerformancePage)
    ensures
        r.deep_view() == (PerformanceModel {
            presets: preset_choices(active),
            note: if active is None {
                Some(
                    "No power-profile service is running, so the processor's profile cannot be read or changed from here. raven-powerd or power-profiles-daemon provides it."@,
                )
            } else {
                None
            },
            clocks: clock_list(gpus.deep_view(), files@, texts@),
            settings: tweak_items(settings.deep_view()),
            caches: cache_list(caches.deep_view()),
        }),
{
    let note: Option<&'static str> = match active {
        None => Some(
            "No power-profile service is running, so the processor's profile cannot be read or changed from here. raven-powerd or power-profiles-daemon provides it.",
        ),
        Some(_) => None,
    };
    PerformancePage {
        presets: preset_cards(active),
        note,
        clocks: clock_rows(gpus, files, texts),
        settings: tweak_section(settings),
        caches: shader_cache_section(caches),
    }
}

// ---------------------------------------------------------------------------
// Laws
// ---------------------------------------------------------------------------

/// At most one preset is shown as active.
pub proof fn at_most_one_preset_is_active(active: Option<Preset>, i: int, j: int)
    requires
        0 <= i < j < 3,
    ensures
        !(preset_choices(active)[i].1 && preset_choices(active)[j].1),
{
}

/// Undoing is offered exactly where something was written.
pub proof fn undoing_is_offered_after_writing(s: SettingsModel)
    ensures
        is_persisted(s) <==> exists|i: int|
            0 <= i < tweak_buttons(s).len() && (#[trigger] tweak_buttons(s)[i]).press
                == PressModel::Revert,
{
    if is_persisted(s) {
        assert(tweak_buttons(s)[1].press == PressModel::Revert);
    }
}

/// The cards that a preset reaches are those whose clock file exists: the file that the driver keeps for
/// the card.
pub proof fn a_preset_reaches_the_cards_with_a_clock_file(
    gpus: Seq<GpuModel>,
    files: Set<Seq<char>>,
    card: Seq<char>,
)
    requires
        card.len() > 0,
        card[0] != '/',
        card.last() != '/',
    ensures
        tunable_names(gpus, files).contains(card) <==> (exists|k: int|
            0 <= k < gpus.len() && (#[trigger] gpus[k]).card == Some(card)) && files.contains(
            "/sys/class/drm"@ + "/"@ + card + "/device/power_dpm_force_performance_level"@,
        ),
{
    let f = |g: GpuModel|
        if is_tunable(g, files) {
            g.card
        } else {
            None
        };
    crate::lists::lemma_picked(gpus, f, card);
    lemma_clock_file(card);
    if tunable_names(gpus, files).contains(card) {
        let k = choose|k: int| 0 <= k < gpus.len() && f(#[trigger] gpus[k]) == Some(card);
        assert(gpus[k].card == Some(card));
    }
    if exists|k: int| 0 <= k < gpus.len() && (#[trigger] gpus[k]).card == Some(card) {
        let k = choose|k: int| 0 <= k < gpus.len() && (#[trigger] gpus[k]).card == Some(card);
        if files.contains(mode_file(card)) {
            assert(f(gpus[k]) == Some(card));
        }
    }
}

proof fn lemma_clock_file(card: Seq<char>)
    requires
        card.len() > 0,
        card[0] != '/',
        card.last() != '/',
    ensures
        mode_file(card) == "/sys/class/drm"@ + "/"@ + card
            + "/device/power_dpm_force_performance_level"@,
{
    reveal_strlit("/sys/class/drm");
    reveal_strlit("/");
    reveal_strlit("device/power_dpm_force_performance_level");
    reveal_strlit("/device/power_dpm_force_performance_level");
    crate::path::a_name_goes_below_its_directory("/sys/class/drm"@, card);
    crate::path::a_name_goes_below_its_directory(
        crate::path::join("/sys/class/drm"@, card),
        "device/power_dpm_force_performance_level"@,
    );
    assert("/sys/class/drm"@.last() == 'm');
    assert(mode_file(card) =~= "/sys/class/drm"@ + "/"@ + card
        + "/device/power_dpm_force_performance_level"@);
}

/// Every card that has a clock file is set, and to the one mode that the preset stands for.
pub proof fn a_preset_sets_every_card_alike(names: Seq<Seq<char>>, i: int)
    requires
        0 <= i < names.len(),
    ensures
        actions_of(Preset::Quiet, names).len() == names.len(),
        actions_of(Preset::Quiet, names)[i] == (ActionModel::GpuMode {
            card: names[i],
            mode: GpuMode::Low,
        }),
        actions_of(Preset::Balanced, names)[i] == (ActionModel::GpuMode {
            card: names[i],
            mode: GpuMode::Auto,
        }),
        actions_of(Preset::Performance, names)[i] == (ActionModel::GpuMode {
            card: names[i],
            mode: GpuMode::High,
        }),
{
}

/// The policy of a card is the word that its clock file holds.
pub proof fn a_policy_is_the_word_in_the_file(
    g: GpuModel,
    card: Seq<char>,
    files: Set<Seq<char>>,
    texts: Map<Seq<char>, Seq<char>>,
)
    requires
        g.card == Some(card),
        files.contains(mode_file(card)),
        texts.contains_key(mode_file(card)),
    ensures
        texts[mode_file(card)] == "high"@.push('\n') ==> policy_of(g, files, texts) == Some(
            GpuMode::High,
        ),
        texts[mode_file(card)] == "low"@.push('\n') ==> policy_of(g, files, texts) == Some(GpuMode::Low),
        texts[mode_file(card)] == "auto"@.push('\n') ==> policy_of(g, files, texts) == Some(
            GpuMode::Auto,
        ),
{
    reveal_strlit("high");
    reveal_strlit("low");
    reveal_strlit("auto");
    let none = Seq::<char>::empty();
    assert(none + "high"@ + seq!['\n'] =~= "high"@.push('\n'));
    assert(none + "low"@ + seq!['\n'] =~= "low"@.push('\n'));
    assert(none + "auto"@ + seq!['\n'] =~= "auto"@.push('\n'));
    crate::text::trimming_undoes_padding(none, "high"@, seq!['\n']);
    crate::text::trimming_undoes_padding(none, "low"@, seq!['\n']);
    crate::text::trimming_undoes_padding(none, "auto"@, seq!['\n']);
    assert("high"@.len() == 4 && "low"@.len() == 3 && "auto"@.len() == 4 && "auto"@[0] == 'a'
        && "high"@[0] == 'h');
}

/// Without a clock file, or where it could not be read, there is no policy to show.
pub proof fn no_file_no_policy(
    g: GpuModel,
    card: Seq<char>,
    files: Set<Seq<char>>,
    texts: Map<Seq<char>, Seq<char>>,
)
    requires
        g.card == Some(card),
        !files.contains(mode_file(card)) || !texts.contains_key(mode_file(card)),
    ensures
        policy_of(g, files, texts) is None,
        policy_of(GpuModel { card: None, ..g }, files, texts) is None,
{
}

/// The row of a setting is good exactly where the setting is, and says which of the two it is.
pub proof fn the_row_of_a_setting_says_whether_it_is_set(t: Tweak, s: SettingsModel)
    ensures
        applied(t, s) <==> tweak_row(t, s).state == State::Good,
        !applied(t, s) <==> tweak_row(t, s).state == State::Advisory,
        applied(t, s) ==> tweak_row(t, s).trailing == TrailingModel::Badge("Set"@, "installed"@),
        !applied(t, s) ==> tweak_row(t, s).trailing == TrailingModel::Badge("Default"@, "neutral"@),
{
}

/// The settings can be applied exactly until every one of them is good, and the button applies them.
pub proof fn settings_can_be_applied_until_they_are_good(s: SettingsModel)
    ensures
        tweak_buttons(s)[0].sensitive <==> exists|i: int|
            0 <= i < all_tweaks().len() && !applied(#[trigger] all_tweaks()[i], s),
        tweak_buttons(s)[0].press == PressModel::Fixes(seq![FixModel::ApplyTweaks]),
{
    crate::lists::lemma_filter_members(all_tweaks(), |t: Tweak| !applied(t, s));
    if exists|i: int| 0 <= i < all_tweaks().len() && !applied(#[trigger] all_tweaks()[i], s) {
        let i = choose|i: int| 0 <= i < all_tweaks().len() && !applied(#[trigger] all_tweaks()[i], s);
        assert(all_tweaks().contains(all_tweaks()[i]));
        assert(needed(s).contains(all_tweaks()[i]));
    }
    if needed(s).len() > 0 {
        let t = needed(s)[0];
        assert(needed(s).contains(t));
        assert(all_tweaks().contains(t));
    }
}

/// Every cache can be cleared from its own row, and from no other.
pub proof fn every_cache_can_be_cleared(caches: Seq<(Seq<char>, u64)>, i: int)
    requires
        0 <= i < caches.len(),
    ensures
        cache_list(caches).len() == caches.len(),
        cache_list(caches)[i].title == caches[i].0,
        cache_list(caches)[i].trailing is Button,
        cache_list(caches)[i].trailing->Button_0.press == PressModel::ClearCache(caches[i].0),
        cache_list(caches)[i].trailing->Button_0.sensitive,
{
}

} // verus!
