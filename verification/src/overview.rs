//! The Overview page: the slides of its banner, the quick cards, and the readiness list.
use vstd::prelude::*;
use crate::checks::{
    all, blurb_for, card_to_play_on, check_models, checklist, combined_fixes, gathered,
    headline_for, list, overall, playing_card, score, score_of, sentence, state_icon, state_text,
    verdict, Check, CheckModel, Fix, FixModel, State, System, };
use crate::collections::{NameSet, TextMap};
use crate::gpu::{cards, driver_label, gpu_title, hybrid, is_hybrid, Gpu, GpuModel};
use crate::lists::{first_index, lemma_filter_step, lemma_first_is, lemma_first_none};
use crate::number::{decimal, decimal_of};
use crate::performance::{clock_policy, is_tunable, policy_of};
use crate::search::{first_line, opening};
use crate::text::{cat2, cat3, cat4, chars_of, equal, part, string_of};
use crate::tune::{
    gpu_mode_path, mode_title, needed, preset_text, presets, tweaks_needed, Action, ActionModel,
    GpuMode, Preset, Settings,
};
use crate::view::{
    button, check_row, check_rows, plain_button, Button, ButtonModel, Press, PressModel, Row,
    RowModel,
};

verus! {

// ---------------------------------------------------------------------------
// Slides
// ---------------------------------------------------------------------------

/// One of the three lines on the right of a slide.
#[derive(Debug, PartialEq, Eq)]
pub struct Feature {
    pub icon: &'static str,
    pub title: String,
    pub detail: String,
}

/// What a line of a slide says.
#[verifier::ext_equal]
pub struct FeatureModel {
    pub icon: Seq<char>,
    pub title: Seq<char>,
    pub detail: Seq<char>,
}

impl DeepView for Feature {
    type V = FeatureModel;

    open spec fn deep_view(&self) -> FeatureModel {
        FeatureModel { icon: self.icon@, title: self.title@, detail: self.detail@ }
    }
}

/// A slide of the banner: words on the left, three lines on the right.
#[derive(Debug, PartialEq, Eq)]
pub struct Slide {
    pub eyebrow: &'static str,
    pub title: String,
    pub lede: String,
    pub action: Option<Button>,
    pub features: Vec<Feature>,
}

/// What a slide says.
#[verifier::ext_equal]
pub struct SlideModel {
    pub eyebrow: Seq<char>,
    pub title: Seq<char>,
    pub lede: Seq<char>,
    pub action: Option<ButtonModel>,
    pub features: Seq<FeatureModel>,
}

impl DeepView for Slide {
    type V = SlideModel;

    open spec fn deep_view(&self) -> SlideModel {
        SlideModel {
            eyebrow: self.eyebrow@,
            title: self.title@,
            lede: self.lede@,
            action: self.action.deep_view(),
            features: self.features.deep_view(),
        }
    }
}

/// A line of a slide.
pub open spec fn feature_of(icon: Seq<char>, title: Seq<char>, detail: Seq<char>) -> FeatureModel {
    FeatureModel { icon, title, detail }
}

fn three_features(a: Feature, b: Feature, c: Feature) -> (r: Vec<Feature>)
    ensures
        r.deep_view() == seq![a.deep_view(), b.deep_view(), c.deep_view()],
{
    let ghost models = seq![a.deep_view(), b.deep_view(), c.deep_view()];
    let mut out: Vec<Feature> = Vec::new();
    out.push(a);
    out.push(b);
    out.push(c);
    assert(out.deep_view() =~= models);
    out
}

fn feature(icon: &'static str, title: &str, detail: &str) -> (r: Feature)
    ensures
        r.deep_view() == feature_of(icon@, title@, detail@),
{
    Feature { icon, title: String::from_str(title), detail: String::from_str(detail) }
}

/// How a number of things reads.
pub open spec fn counted(n: int, one: Seq<char>) -> Seq<char> {
    decimal(n) + one + (if n == 1 {
        ""@
    } else {
        "s"@
    })
}

fn count_text(n: usize, one: &str) -> (r: String)
    ensures
        r@ == counted(n as int, one@),
{
    cat3(
        &decimal_of(n as u64),
        one,
        if n == 1 {
            ""
        } else {
            "s"
        },
    )
}

/// What carrying out a fix means; nothing of advice.
pub open spec fn fix_part(fix: FixModel) -> Option<Seq<char>> {
    match fix {
        FixModel::Install(names) => Some(counted(names.len() as int, " package"@)),
        FixModel::BuildModules(kernels) => Some(
            "driver modules for "@ + counted(kernels.len() as int, " kernel"@),
        ),
        FixModel::ApplyTweaks => Some("system settings"@),
        FixModel::Manual(_) => None,
    }
}

/// What carrying out fixes means, as part of a sentence.
pub open spec fn summary_of(fixes: Seq<FixModel>) -> Seq<char> {
    sentence(fixes.filter_map(|f: FixModel| fix_part(f)))
}

/// The fixes of a slice.
pub open spec fn fix_models(fixes: Seq<Fix>) -> Seq<FixModel> {
    Seq::new(fixes.len(), |i: int| fixes[i].deep_view())
}

/// "4 packages, driver modules for 1 kernel, and system settings": a button that installs software
/// and asks for a password says what it is going to do while there is still the option of not
/// pressing it.
pub fn fix_summary(fixes: &[Fix]) -> (r: String)
    ensures
        r@ == summary_of(fix_models(fixes@)),
{
    let ghost every = fix_models(fixes@);
    let ghost f = |f: FixModel| fix_part(f);
    let mut parts: Vec<String> = Vec::new();
    let mut i: usize = 0;
    assert(parts.deep_view() =~= every.take(0).filter_map(f));
    while i < fixes.len()
        invariant
            i <= fixes.len(),
            every == fix_models(fixes@),
            f == (|f: FixModel| fix_part(f)),
            parts.deep_view() == every.take(i as int).filter_map(f),
        decreases fixes.len() - i,
    {
        proof {
            crate::lists::lemma_filter_map_step(every, i as int, f);
            assert(every[i as int] == fixes@[i as int].deep_view());
        }
        let ghost before = parts.deep_view();
        let said: Option<String> = match &fixes[i] {
            Fix::Install(names) => Some(count_text(names.len(), " package")),
            Fix::BuildModules(kernels) => Some(
                cat2("driver modules for ", &count_text(kernels.len(), " kernel")),
            ),
            Fix::ApplyTweaks => Some(String::from_str("system settings")),
            Fix::Manual(_) => None,
        };
        if let Some(text) = said {
            let ghost t = text@;
            parts.push(text);
            assert(parts.deep_view() =~= before.push(t));
        }
        i = i + 1;
    }
    assert(every.take(i as int) =~= every);
    list(&parts)
}

/// How many characters of a check's first line a slide shows.
pub const FEATURE_LENGTH: usize = 60;

/// The beginning of a text.
pub open spec fn clipped(text: Seq<char>, n: int) -> Seq<char> {
    if text.len() > n {
        text.take(n)
    } else {
        text
    }
}

fn clip(text: &str, n: usize) -> (r: String)
    ensures
        r@ == clipped(text@, n as int),
{
    let chars = chars_of(text);
    if chars.len() > n {
        assert(chars@.subrange(0, n as int) =~= chars@.take(n as int));
        string_of(part(&chars, 0, n))
    } else {
        string_of(&chars)
    }
}

/// The line of a slide that speaks of a check.
pub open spec fn check_feature(c: CheckModel) -> FeatureModel {
    feature_of(state_icon(c.state), c.title, clipped(opening(c.detail), FEATURE_LENGTH as int))
}

/// The checks that are not clear.
pub open spec fn outstanding(checks: Seq<CheckModel>) -> Seq<CheckModel> {
    checks.filter(|c: CheckModel| c.state != State::Good)
}

/// The lines of the readiness slide: the checks that are not clear, three at most, and where there
/// is none the three things that being ready means.
pub open spec fn readiness_features(checks: Seq<CheckModel>) -> Seq<FeatureModel> {
    let left = outstanding(checks);
    if left.len() == 0 {
        seq![
            feature_of(
                "emblem-ok-symbolic"@,
                "Drivers in place"@,
                "Kernel and libraries both"@,
            ),
            feature_of(
                "emblem-ok-symbolic"@,
                "Built for every kernel"@,
                "A kernel update will not break it"@,
            ),
            feature_of(
                "emblem-ok-symbolic"@,
                "Settings applied"@,
                "Large games have the room they need"@,
            ),
        ]
    } else {
        (if left.len() > 3 {
            left.take(3)
        } else {
            left
        }).map_values(|c: CheckModel| check_feature(c))
    }
}

fn features_of(checks: &Vec<Check>) -> (r: Vec<Feature>)
    ensures
        r.deep_view() == readiness_features(checks.deep_view()),
{
    let ghost every = checks.deep_view();
    let ghost p = |c: CheckModel| c.state != State::Good;
    let ghost f = |c: CheckModel| check_feature(c);
    let ghost left = outstanding(every);
    let mut out: Vec<Feature> = Vec::new();
    let ghost mut met = Seq::<CheckModel>::empty();
    let mut i: usize = 0;
    proof {
        reveal(Seq::filter);
        assert(every.take(0).filter(p) =~= Seq::empty());
        assert(out.deep_view() =~= met.map_values(f));
    }
    while i < checks.len()
        invariant
            i <= checks.len(),
            every == checks.deep_view(),
            p == (|c: CheckModel| c.state != State::Good),
            f == (|c: CheckModel| check_feature(c)),
            met == every.take(i as int).filter(p),
            out.deep_view() == (if met.len() > 3 {
                met.take(3)
            } else {
                met
            }).map_values(f),
        decreases checks.len() - i,
    {
        let ghost before = out.deep_view();
        let ghost old_met = met;
        proof {
            lemma_filter_step(every, i as int, p);
            assert(every[i as int] == checks@[i as int].deep_view());
            met = every.take(i + 1).filter(p);
        }
        let check = &checks[i];
        if check.state != State::Good {
            if out.len() < 3 {
                out.push(
                    Feature {
                        icon: check.state.icon(),
                        title: check.title.clone(),
                        detail: clip(&first_line(&check.detail), FEATURE_LENGTH),
                    },
                );
                assert(out.deep_view() =~= before.push(f(every[i as int])));
                assert(out.deep_view() =~= met.map_values(f));
            } else {
                assert(before.len() == out.len());
                assert(old_met.len() >= 3);
                assert(met.take(3) =~= (if old_met.len() > 3 {
                    old_met.take(3)
                } else {
                    old_met
                }));
            }
        }
        i = i + 1;
    }
    assert(every.take(i as int) =~= every);
    if out.len() == 0 {
        return three_features(
            feature("emblem-ok-symbolic", "Drivers in place", "Kernel and libraries both"),
            feature(
                "emblem-ok-symbolic",
                "Built for every kernel",
                "A kernel update will not break it",
            ),
            feature(
                "emblem-ok-symbolic",
                "Settings applied",
                "Large games have the room they need",
            ),
        );
    }
    out
}

/// The slide that says whether the machine is ready.
pub open spec fn readiness_slide(checks: Seq<CheckModel>) -> SlideModel {
    let state = overall(checks);
    let fixes = gathered(checks);
    SlideModel {
        eyebrow: state_text(state),
        title: headline_for(state),
        lede: if summary_of(fixes).len() == 0 {
            blurb_for(state)
        } else {
            blurb_for(state) + " Fixing it means "@ + summary_of(fixes) + "."@
        },
        action: if fixes.len() == 0 {
            None
        } else {
            Some(plain_button("Fix what is missing"@, false, PressModel::Fixes(fixes)))
        },
        features: readiness_features(checks),
    }
}

/// The slide that says whether the machine is ready, and offers to fix what is missing.
pub fn hero_readiness(system: &System) -> (r: Slide)
    ensures
        r.deep_view() == readiness_slide(checklist(system.deep_view())),
{
    let found = all(system);
    let ghost every = found.deep_view();
    assert(check_models(found@) =~= every);
    let (state, headline, blurb) = verdict(&found);
    let fixes = combined_fixes(&found);
    assert(fix_models(fixes@) =~= fixes.deep_view());
    let summary = fix_summary(&fixes);
    let lede: String = if chars_of(&summary).len() == 0 {
        String::from_str(blurb)
    } else {
        cat4(blurb, " Fixing it means ", &summary, ".")
    };
    let action: Option<Button> = if fixes.len() == 0 {
        None
    } else {
        Some(button("Fix what is missing", false, Press::Fixes(fixes)))
    };
    Slide {
        eyebrow: state.text(),
        title: String::from_str(headline),
        lede,
        action,
        features: features_of(&found),
    }
}

/// The slide that says which card games are played on. Its lines are filled in by readings.
pub open spec fn card_slide(gpus: Seq<GpuModel>) -> SlideModel {
    match playing_card(gpus) {
        None => SlideModel {
            eyebrow: "Graphics"@,
            title: "No graphics card found"@,
            lede: "Nothing on the PCI bus identifies itself as a display controller. Inside a virtual machine that is normal."@,
            action: None,
            features: Seq::empty(),
        },
        Some(g) => SlideModel {
            eyebrow: "Playing on"@,
            title: gpu_title(g),
            lede: if hybrid(gpus) {
                "The faster of the two cards in this machine. A game only lands on it when it is told to — the Library page has the line that tells it."@
            } else {
                "The card every game in this machine renders on."@
            },
            action: Some(
                plain_button("Graphics drivers"@, false, PressModel::Jump("graphics"@)),
            ),
            features: seq![
                feature_of("utilities-system-monitor-symbolic"@, "Load"@, "—"@),
                feature_of("temperature-symbolic"@, "Temperature"@, "—"@),
                feature_of("battery-full-charging-symbolic"@, "Power"@, "—"@),
            ],
        },
    }
}

/// The slide that says which card games are played on.
pub fn hero_card(gpus: &Vec<Gpu>) -> (r: Slide)
    ensures
        r.deep_view() == card_slide(gpus.deep_view()),
{
    assert(cards(gpus@) =~= gpus.deep_view());
    match card_to_play_on(gpus) {
        None => {
            let none: Vec<Feature> = Vec::new();
            assert(none.deep_view() =~= Seq::empty());
            Slide {
                eyebrow: "Graphics",
                title: String::from_str("No graphics card found"),
                lede: String::from_str(
                    "Nothing on the PCI bus identifies itself as a display controller. Inside a virtual machine that is normal.",
                ),
                action: None,
                features: none,
            }
        },
        Some(card) => {
            let lede: &str = if is_hybrid(gpus) {
                "The faster of the two cards in this machine. A game only lands on it when it is told to — the Library page has the line that tells it."
            } else {
                "The card every game in this machine renders on."
            };
            Slide {
                eyebrow: "Playing on",
                title: card.title(),
                lede: String::from_str(lede),
                action: Some(button("Graphics drivers", false, Press::Jump("graphics"))),
                features: three_features(
                    feature("utilities-system-monitor-symbolic", "Load", "—"),
                    feature("temperature-symbolic", "Temperature", "—"),
                    feature("battery-full-charging-symbolic", "Power", "—"),
                ),
            }
        },
    }
}

/// Where the card games are played on stands among the cards, by its address.
pub open spec fn playing_place(gpus: Seq<GpuModel>) -> Option<int> {
    match playing_card(gpus) {
        Some(g) => first_index(gpus, |other: GpuModel| other.address == g.address),
        None => None,
    }
}

/// Where the card games are played on stands among the cards: the gauges show that one, not the
/// first.
pub fn gaming_index(gpus: &Vec<Gpu>) -> (r: Option<usize>)
    ensures
        r is Some == playing_place(gpus.deep_view()) is Some,
        r is Some ==> r->0 == playing_place(gpus.deep_view())->0,
{
    let ghost every = gpus.deep_view();
    match card_to_play_on(gpus) {
        None => None,
        Some(card) => {
            let ghost g = card.deep_view();
            let ghost p = |other: GpuModel| other.address == g.address;
            let mut i: usize = 0;
            while i < gpus.len()
                invariant
                    i <= gpus.len(),
                    every == gpus.deep_view(),
                    g == card.deep_view(),
                    playing_card(every) == Some(g),
                    p == (|other: GpuModel| other.address == g.address),
                    forall|j: int| 0 <= j < i ==> !p(#[trigger] every[j]),
                decreases gpus.len() - i,
            {
                assert(every[i as int] == gpus@[i as int].deep_view());
                if equal(&gpus[i].address, &card.address) {
                    proof {
                        lemma_first_is(every, p, i as int);
                    }
                    return Some(i);
                }
                i = i + 1;
            }
            proof {
                lemma_first_none(every, p);
            }
            None
        },
    }
}

/// How many recordings are kept, in words.
pub open spec fn kept_text(count: int) -> Seq<char> {
    if count == 0 {
        "Nothing recorded yet"@
    } else if count == 1 {
        "1 recording kept"@
    } else {
        decimal(count) + " recordings kept"@
    }
}

/// The slide that speaks of capture.
pub open spec fn capture_slide(count: int, exporter: bool) -> SlideModel {
    SlideModel {
        eyebrow: "Capture"@,
        title: "Keep the run that went right"@,
        lede: "The compositor records the screen itself, inside the render loop, so a game working hard cannot make it drop frames."@,
        action: Some(plain_button("Open Capture"@, false, PressModel::Jump("capture"@))),
        features: seq![
            feature_of(
                "input-keyboard-symbolic"@,
                "Super + Print"@,
                "Starts and stops a recording"@,
            ),
            feature_of("folder-videos-symbolic"@, kept_text(count), "In your Videos folder"@),
            feature_of(
                "video-x-generic-symbolic"@,
                if exporter {
                    "Export to MP4"@
                } else {
                    "raven-export missing"@
                },
                "Playable anywhere"@,
            ),
        ],
    }
}

/// The slide that speaks of capture, given how many recordings there are and whether the exporter is
/// installed.
pub fn hero_capture(count: usize, exporter: bool) -> (r: Slide)
    ensures
        r.deep_view() == capture_slide(count as int, exporter),
{
    let kept: String = if count == 0 {
        String::from_str("Nothing recorded yet")
    } else if count == 1 {
        String::from_str("1 recording kept")
    } else {
        cat2(&decimal_of(count as u64), " recordings kept")
    };
    let export: &str = if exporter {
        "Export to MP4"
    } else {
        "raven-export missing"
    };
    Slide {
        eyebrow: "Capture",
        title: String::from_str("Keep the run that went right"),
        lede: String::from_str(
            "The compositor records the screen itself, inside the render loop, so a game working hard cannot make it drop frames.",
        ),
        action: Some(button("Open Capture", false, Press::Jump("capture"))),
        features: three_features(
            feature("input-keyboard-symbolic", "Super + Print", "Starts and stops a recording"),
            feature("folder-videos-symbolic", &kept, "In your Videos folder"),
            feature("video-x-generic-symbolic", export, "Playable anywhere"),
        ),
    }
}

// ---------------------------------------------------------------------------
// Quick cards
// ---------------------------------------------------------------------------

/// The card that chooses a performance profile.
#[derive(Debug, Clone, Copy, PartialEq, Eq)]
pub struct ProfileCard {
    pub lit: bool,
    /// Which preset is chosen; where none is, none can be chosen from here.
    pub selected: Option<usize>,
    pub foot: &'static str,
}

/// Where a preset stands in the list of them.
pub open spec fn preset_place(preset: Preset) -> int {
    match preset {
        Preset::Quiet => 0,
        Preset::Balanced => 1,
        Preset::Performance => 2,
    }
}

/// The card that chooses a performance profile, given the active one.
pub fn profile_quick_card(active: Option<Preset>) -> (r: ProfileCard)
    ensures
        r.lit == (active == Some(Preset::Performance)),
        match active {
            Some(preset) => r.selected is Some && r.selected->0 == preset_place(preset) && r.foot@
                == preset_text(preset),
            None => r.selected is None && r.foot@
                == "No power-profile service is running, so this cannot be set from here."@,
        },
{
    match active {
        Some(preset) => {
            let place: usize = match preset {
                Preset::Quiet => 0,
                Preset::Balanced => 1,
                Preset::Performance => 2,
            };
            ProfileCard {
                lit: preset == Preset::Performance,
                selected: Some(place),
                foot: preset.description(),
            }
        },
        None => ProfileCard {
            lit: false,
            selected: None,
            foot: "No power-profile service is running, so this cannot be set from here.",
        },
    }
}

/// What is to be applied when the choice at a place is taken: nothing where there is none there, or
/// where it is the active one.
pub fn choose_preset(active: Option<Preset>, place: usize) -> (r: Option<Preset>)
    ensures
        r is Some <==> place < 3 && !(active is Some && preset_place(active->0) == place),
        r is Some ==> preset_place(r->0) == place,
{
    let every = presets();
    if place >= every.len() {
        return None;
    }
    let preset = every[place];
    match active {
        Some(a) => if a == preset {
            None
        } else {
            Some(preset)
        },
        None => Some(preset),
    }
}

/// The card that chooses how the clocks of a card are held.
#[derive(Debug, PartialEq, Eq)]
pub struct ClocksCard {
    pub lit: bool,
    /// What is shown instead of a choice where no card has a clock policy.
    pub value: Option<String>,
    /// Which of the modes is chosen, where it could be read.
    pub selected: Option<usize>,
    pub foot: String,
    pub current: Option<GpuMode>,
    pub card: Option<String>,
}

/// What the card that chooses clocks shows.
#[verifier::ext_equal]
pub struct ClocksCardModel {
    pub lit: bool,
    pub value: Option<Seq<char>>,
    pub selected: Option<usize>,
    pub foot: Seq<char>,
    pub current: Option<GpuMode>,
    pub card: Option<Seq<char>>,
}

impl DeepView for ClocksCard {
    type V = ClocksCardModel;

    open spec fn deep_view(&self) -> ClocksCardModel {
        ClocksCardModel {
            lit: self.lit,
            value: self.value.deep_view(),
            selected: self.selected,
            foot: self.foot@,
            current: self.current,
            card: self.card.deep_view(),
        }
    }
}

/// Where a mode stands in the choice of them.
pub open spec fn mode_place(mode: GpuMode) -> usize {
    match mode {
        GpuMode::Low => 0,
        GpuMode::Auto => 1,
        GpuMode::High => 2,
    }
}

/// Where the first card with a clock policy stands.
pub open spec fn first_tunable(gpus: Seq<GpuModel>, files: Set<Seq<char>>) -> Option<int> {
    first_index(gpus, |g: GpuModel| is_tunable(g, files))
}

/// What the card that chooses clocks shows: the first card that has a clock policy, and where none
/// has one the driver of the card games are played on.
pub open spec fn clocks_of(
    gpus: Seq<GpuModel>,
    files: Set<Seq<char>>,
    texts: Map<Seq<char>, Seq<char>>,
) -> ClocksCardModel {
    match first_tunable(gpus, files) {
        Some(i) => {
            let current = policy_of(gpus[i], files, texts);
            ClocksCardModel {
                lit: current == Some(GpuMode::High),
                value: None,
                selected: match current {
                    Some(mode) => Some(mode_place(mode)),
                    None => None,
                },
                foot: "On "@ + gpu_title(gpus[i]),
                current,
                card: gpus[i].card,
            }
        },
        None => ClocksCardModel {
            lit: false,
            value: Some(
                match playing_card(gpus) {
                    Some(g) => driver_label(g.driver),
                    None => "No card"@,
                },
            ),
            selected: None,
            foot: "This driver has no clock policy to set. It manages clocks on its own."@,
            current: None,
            card: None,
        },
    }
}

fn tunable_at(gpus: &Vec<Gpu>, files: &NameSet) -> (r: Option<usize>)
    ensures
        r is Some == first_tunable(gpus.deep_view(), files@) is Some,
        r is Some ==> r->0 == first_tunable(gpus.deep_view(), files@)->0 && r->0 < gpus.len(),
{
    let ghost every = gpus.deep_view();
    let ghost there = files@;
    let ghost p = |g: GpuModel| is_tunable(g, there);
    let mut i: usize = 0;
    while i < gpus.len()
        invariant
            i <= gpus.len(),
            every == gpus.deep_view(),
            there == files@,
            p == (|g: GpuModel| is_tunable(g, there)),
            forall|j: int| 0 <= j < i ==> !p(#[trigger] every[j]),
        decreases gpus.len() - i,
    {
        assert(every[i as int] == gpus@[i as int].deep_view());
        if gpu_mode_path(&gpus[i], files).is_some() {
            proof {
                lemma_first_is(every, p, i as int);
            }
            return Some(i);
        }
        i = i + 1;
    }
    proof {
        lemma_first_none(every, p);
    }
    None
}

/// The card that chooses how the clocks of a card are held.
pub fn clocks_quick_card(gpus: &Vec<Gpu>, files: &NameSet, texts: &TextMap) -> (r: ClocksCard)
    ensures
        r.deep_view() == clocks_of(gpus.deep_view(), files@, texts@),
{
    match tunable_at(gpus, files) {
        Some(i) => {
            assert(gpus.deep_view()[i as int] == gpus@[i as int].deep_view());
            let gpu = &gpus[i];
            let current = clock_policy(gpu, files, texts);
            let (lit, selected): (bool, Option<usize>) = match current {
                Some(GpuMode::Low) => (false, Some(0)),
                Some(GpuMode::Auto) => (false, Some(1)),
                Some(GpuMode::High) => (true, Some(2)),
                None => (false, None),
            };
            ClocksCard {
                lit,
                value: None,
                selected,
                foot: cat2("On ", &gpu.title()),
                current,
                card: crate::gpu::copied(&gpu.card),
            }
        },
        None => {
            let value: String = match card_to_play_on(gpus) {
                Some(g) => String::from_str(g.driver.label()),
                None => String::from_str("No card"),
            };
            ClocksCard {
                lit: false,
                value: Some(value),
                selected: None,
                foot: String::from_str(
                    "This driver has no clock policy to set. It manages clocks on its own.",
                ),
                current: None,
                card: None,
            }
        },
    }
}

/// What is done when the mode at a place is chosen, and what is said of it.
#[derive(Debug, PartialEq, Eq)]
pub struct ClockChange {
    pub said: String,
    pub action: Action,
}

/// What is done when the mode at a place is chosen: nothing where there is none there, where it is
/// the current one, or where the card has no name.
pub fn choose_mode(current: Option<GpuMode>, card: Option<&str>, place: usize) -> (r: Option<
    ClockChange,
>)
    ensures
        r is Some <==> place < 3 && card is Some && !(current is Some && mode_place(current->0)
            == place),
        r is Some ==> exists|mode: GpuMode| #[trigger]
            mode_place(mode) == place && r->0.said@ == mode_title(mode) + " clocks"@
                && r->0.action.deep_view() == (ActionModel::GpuMode { card: card->0@, mode }),
{
    if place >= 3 {
        return None;
    }
    let mode: GpuMode = if place == 0 {
        GpuMode::Low
    } else if place == 1 {
        GpuMode::Auto
    } else {
        GpuMode::High
    };
    assert(mode_place(mode) == place);
    let same: bool = match current {
        Some(c) => c == mode,
        None => false,
    };
    if same {
        return None;
    }
    match card {
        Some(name) => Some(
            ClockChange {
                said: cat2(mode.title(), " clocks"),
                action: Action::GpuMode { card: String::from_str(name), mode },
            },
        ),
        None => None,
    }
}

/// What a monitor says of itself: its size, how its pixels are scaled, and its refresh rate in
/// millihertz, zero where the compositor did not say.
#[derive(Debug, Clone, Copy, PartialEq, Eq)]
pub struct Monitor {
    pub width: u32,
    pub height: u32,
    pub scale: u32,
    pub refresh: u32,
}

/// The number of pixels that a monitor shows, before scaling.
pub open spec fn area(m: Monitor) -> int {
    m.width * m.height
}

/// The largest monitor, and of several the last.
pub open spec fn largest(monitors: Seq<Monitor>) -> Option<Monitor>
    decreases monitors.len(),
{
    if monitors.len() == 0 {
        None
    } else {
        match largest(monitors.drop_last()) {
            Some(m) => if area(m) > area(monitors.last()) {
                Some(m)
            } else {
                Some(monitors.last())
            },
            None => Some(monitors.last()),
        }
    }
}

/// What a monitor is running, in words: its pixels, and its refresh rate in hertz to the nearest
/// where it is known.
pub open spec fn mode_text(m: Monitor) -> Seq<char> {
    let scale: int = if m.scale == 0 {
        1
    } else {
        m.scale as int
    };
    let size = decimal(m.width * scale) + " × "@ + decimal(m.height * scale);
    if m.refresh == 0 {
        size
    } else {
        size + " · "@ + decimal((m.refresh + 500) / 1000) + " Hz"@
    }
}

/// The mode the screen is running: that of the largest monitor. Nothing where there is none.
pub fn current_display_mode(monitors: &Vec<Monitor>) -> (r: Option<String>)
    ensures
        r.deep_view() == (match largest(monitors@) {
            Some(m) => Some(mode_text(m)),
            None => None,
        }),
{
    let mut best: Option<Monitor> = None;
    let mut i: usize = 0;
    assert(monitors@.take(0) =~= Seq::empty());
    while i < monitors.len()
        invariant
            i <= monitors.len(),
            best == largest(monitors@.take(i as int)),
        decreases monitors.len() - i,
    {
        assert(monitors@.take(i + 1).drop_last() =~= monitors@.take(i as int));
        let next: Monitor = monitors[i];
        let better: bool = match best {
            Some(m) => {
                proof {
                    lemma_product(m.width, m.height);
                    lemma_product(next.width, next.height);
                }
                (m.width as u64) * (m.height as u64) <= (next.width as u64) * (next.height as u64)
            },
            None => true,
        };
        if better {
            best = Some(next);
        }
        i = i + 1;
    }
    assert(monitors@.take(i as int) =~= monitors@);
    match best {
        None => None,
        Some(m) => {
            let scale: u32 = if m.scale == 0 {
                1
            } else {
                m.scale
            };
            proof {
                lemma_product(m.width, scale);
                lemma_product(m.height, scale);
            }
            let size = cat3(
                &decimal_of((m.width as u64) * (scale as u64)),
                " × ",
                &decimal_of((m.height as u64) * (scale as u64)),
            );
            if m.refresh == 0 {
                Some(size)
            } else {
                let hertz: u64 = (m.refresh as u64 + 500) / 1000;
                Some(cat4(&size, " · ", &decimal_of(hertz), " Hz"))
            }
        },
    }
}

proof fn lemma_product(a: u32, b: u32)
    ensures
        0 <= a * b <= u64::MAX,
{
    assert(0 <= a * b <= 0xffff_ffff * 0xffff_ffff) by (nonlinear_arith)
        requires
            0 <= a <= 0xffff_ffff,
            0 <= b <= 0xffff_ffff,
    ;
}

/// What the display card says, and whether it offers the settings of displays.
#[derive(Debug, PartialEq, Eq)]
pub struct DisplayCard {
    pub value: String,
    pub settings: bool,
}

/// What the display card says, given the monitors and whether the settings program is installed.
pub fn display_quick_card(monitors: &Vec<Monitor>, raven_settings: bool) -> (r: DisplayCard)
    ensures
        r.value@ == (match largest(monitors@) {
            Some(m) => mode_text(m),
            None => "Unknown"@,
        }),
        r.settings == raven_settings,
{
    let value: String = match current_display_mode(monitors) {
        Some(text) => text,
        None => String::from_str("Unknown"),
    };
    DisplayCard { value, settings: raven_settings }
}

/// The card that switches the system settings on and off.
#[derive(Debug, Clone, Copy, PartialEq, Eq)]
pub struct TuningCard {
    pub applied: bool,
    pub value: &'static str,
    pub class: &'static str,
    pub foot: &'static str,
}

/// The card that switches the system settings on and off.
pub fn tuning_quick_card(settings: &Settings) -> (r: TuningCard)
    ensures
        r.applied == (needed(settings.deep_view()).len() == 0),
        r.value@ == (if r.applied {
            "Applied"@
        } else {
            "Not applied"@
        }),
        r.class@ == (if r.applied {
            "quick-value"@
        } else {
            "quick-foot"@
        }),
        r.foot@ == (if r.applied {
            "Kernel settings large games depend on are in place."@
        } else {
            "Four kernel settings games need. Off, big games can fail to start."@
        }),
{
    if tweaks_needed(settings).len() == 0 {
        TuningCard {
            applied: true,
            value: "Applied",
            class: "quick-value",
            foot: "Kernel settings large games depend on are in place.",
        }
    } else {
        TuningCard {
            applied: false,
            value: "Not applied",
            class: "quick-foot",
            foot: "Four kernel settings games need. Off, big games can fail to start.",
        }
    }
}

/// What follows when the switch is moved.
#[derive(Debug, Clone, Copy, PartialEq, Eq, Structural)]
pub enum SwitchStep {
    /// It shows what is so already.
    Proceed,
    /// It is put back, and the settings are applied.
    Apply,
    /// It is put back, and restoring the defaults is asked about.
    AskToRevert,
}

/// What follows when the switch is moved. It never shows a state that was only asked for.
pub fn switch_moved(applied: bool, wanted: bool) -> (r: SwitchStep)
    ensures
        r == (if wanted == applied {
            SwitchStep::Proceed
        } else if wanted {
            SwitchStep::Apply
        } else {
            SwitchStep::AskToRevert
        }),
{
    if wanted == applied {
        SwitchStep::Proceed
    } else if wanted {
        SwitchStep::Apply
    } else {
        SwitchStep::AskToRevert
    }
}

// ---------------------------------------------------------------------------
// Readiness
// ---------------------------------------------------------------------------

/// The list of everything that matters.
#[derive(Debug, PartialEq, Eq)]
pub struct Readiness {
    pub badge: String,
    pub class: &'static str,
    pub rows: Vec<Row>,
}

/// What the list of everything that matters shows.
#[verifier::ext_equal]
pub struct ReadinessModel {
    pub badge: Seq<char>,
    pub class: Seq<char>,
    pub rows: Seq<RowModel>,
}

impl DeepView for Readiness {
    type V = ReadinessModel;

    open spec fn deep_view(&self) -> ReadinessModel {
        ReadinessModel { badge: self.badge@, class: self.class@, rows: self.rows.deep_view() }
    }
}

/// What the list of everything that matters shows: every check, and how many are clear.
pub open spec fn readiness_of(checks: Seq<CheckModel>) -> ReadinessModel {
    let (good, total) = score_of(checks);
    ReadinessModel {
        badge: decimal(good) + " of "@ + decimal(total) + " clear"@,
        class: if good == total {
            "installed"@
        } else {
            "warning"@
        },
        rows: checks.map_values(|c: CheckModel| check_row(c)),
    }
}

/// The list of everything that matters.
pub fn readiness_card(system: &System) -> (r: Readiness)
    ensures
        r.deep_view() == readiness_of(checklist(system.deep_view())),
{
    let found = all(system);
    assert(check_models(found@) =~= found.deep_view());
    let (good, total) = score(&found);
    Readiness {
        badge: cat4(&decimal_of(good as u64), " of ", &decimal_of(total as u64), " clear"),
        class: if good == total {
            "installed"
        } else {
            "warning"
        },
        rows: check_rows(&found),
    }
}

// ---------------------------------------------------------------------------
// Laws
// ---------------------------------------------------------------------------

/// The banner offers to fix something exactly where there is something to fix, and pressing the
/// button carries out exactly the gathered fixes.
pub proof fn the_button_fixes_what_is_missing(checks: Seq<CheckModel>)
    ensures
        readiness_slide(checks).action is Some <==> gathered(checks).len() > 0,
        readiness_slide(checks).action is Some ==> readiness_slide(checks).action->0.press
            == PressModel::Fixes(gathered(checks)),
{
}

/// The readiness slide never shows more than three lines.
pub proof fn three_lines_at_most(checks: Seq<CheckModel>)
    ensures
        1 <= readiness_features(checks).len() <= 3,
{
}

/// No monitor is larger than the one whose mode is shown.
pub proof fn the_largest_is_shown(monitors: Seq<Monitor>, i: int)
    requires
        0 <= i < monitors.len(),
    ensures
        largest(monitors) is Some,
        area(largest(monitors)->0) >= area(monitors[i]),
    decreases monitors.len(),
{
    if i < monitors.len() - 1 {
        the_largest_is_shown(monitors.drop_last(), i);
    }
}

/// The card that the gauges follow is the one games are played on, or one at the same address.
pub proof fn the_gauges_follow_the_playing_card(gpus: Seq<GpuModel>)
    requires
        gpus.len() > 0,
    ensures
        playing_place(gpus) is Some,
        0 <= playing_place(gpus)->0 < gpus.len(),
        gpus[playing_place(gpus)->0].address == playing_card(gpus)->0.address,
{
    let g = playing_card(gpus)->0;
    let p = |other: GpuModel| other.address == g.address;
    crate::lists::lemma_first_index(gpus, p);
    crate::checks::the_playing_card_is_one_of_them(gpus);
    let k = choose|k: int| 0 <= k < gpus.len() && gpus[k] == g;
    assert(p(gpus[k]));
}

/// A fix is said by what it brings: packages and kernels by their number, settings by name; advice is
/// nothing that is carried out.
pub proof fn fixes_are_said_by_what_they_bring(names: Seq<Seq<char>>, advice: Seq<char>)
    ensures
        names.len() == 1 ==> fix_part(FixModel::Install(names)) == Some(decimal(1) + " package"@),
        names.len() != 1 ==> fix_part(FixModel::Install(names)) == Some(
            decimal(names.len() as int) + " package"@ + "s"@,
        ),
        names.len() == 1 ==> fix_part(FixModel::BuildModules(names)) == Some(
            "driver modules for "@ + (decimal(1) + " kernel"@),
        ),
        names.len() != 1 ==> fix_part(FixModel::BuildModules(names)) == Some(
            "driver modules for "@ + (decimal(names.len() as int) + " kernel"@ + "s"@),
        ),
        fix_part(FixModel::ApplyTweaks) == Some("system settings"@),
        fix_part(FixModel::Manual(advice)) is None,
{
    reveal_strlit("");
    assert(decimal(1) + " package"@ + ""@ =~= decimal(1) + " package"@);
    assert(decimal(1) + " kernel"@ + ""@ =~= decimal(1) + " kernel"@);
}

/// Everything that is fixed is named in the summary, in its order, and an advice is not.
pub proof fn the_summary_names_every_fix(fixes: Seq<FixModel>)
    requires
        forall|i: int| 0 <= i < fixes.len() ==> !((#[trigger] fixes[i]) is Manual),
    ensures
        exists|parts: Seq<Seq<char>>| #[trigger]
            sentence(parts) == summary_of(fixes) && parts.len() == fixes.len() && forall|i: int|
                0 <= i < fixes.len() ==> fix_part(#[trigger] fixes[i]) == Some(parts[i]),
{
    let f = |f: FixModel| fix_part(f);
    crate::lists::lemma_all_picked(fixes, f);
    let parts = fixes.filter_map(f);
    assert forall|i: int| 0 <= i < fixes.len() implies fix_part(#[trigger] fixes[i]) == Some(
        parts[i],
    ) by {
        assert(f(fixes[i]) == Some(parts[i]));
    }
    assert(sentence(parts) == summary_of(fixes));
}

/// A line of the readiness slide speaks of a check that is not clear, with its icon, its title and sixty
/// characters of its first line at most.
pub proof fn a_line_speaks_of_a_check_that_is_not_clear(checks: Seq<CheckModel>, i: int)
    requires
        0 <= i < readiness_features(checks).len(),
        exists|k: int| 0 <= k < checks.len() && (#[trigger] checks[k]).state != State::Good,
    ensures
        readiness_features(checks)[i].detail.len() <= 60,
        exists|k: int|
            0 <= k < checks.len() && (#[trigger] checks[k]).state != State::Good
                && readiness_features(checks)[i].title == checks[k].title
                && readiness_features(checks)[i].icon == state_icon(checks[k].state)
                && readiness_features(checks)[i].detail.is_prefix_of(opening(checks[k].detail)),
{
    let p = |c: CheckModel| c.state != State::Good;
    crate::lists::lemma_filter_members(checks, p);
    let left = outstanding(checks);
    let k0 = choose|k: int| 0 <= k < checks.len() && (#[trigger] checks[k]).state != State::Good;
    assert(checks.contains(checks[k0]) && p(checks[k0]));
    assert(left.contains(checks[k0]));
    assert(left.contains(left[i]));
    assert(checks.contains(left[i]));
    let k = choose|k: int| 0 <= k < checks.len() && checks[k] == left[i];
    assert(checks[k].state != State::Good);
    assert(readiness_features(checks)[i] == check_feature(left[i]));
}

/// Where everything is clear the slide says so, and offers nothing.
pub proof fn a_ready_machine_is_told_so(checks: Seq<CheckModel>)
    requires
        forall|k: int| 0 <= k < checks.len() ==> (#[trigger] checks[k]).state == State::Good,
    ensures
        readiness_features(checks).len() == 3,
        forall|i: int|
            0 <= i < 3 ==> (#[trigger] readiness_features(checks)[i]).icon == "emblem-ok-symbolic"@,
{
    let p = |c: CheckModel| c.state != State::Good;
    crate::lists::lemma_filter_members(checks, p);
    let left = outstanding(checks);
    if left.len() > 0 {
        assert(left.contains(left[0]));
        assert(checks.contains(left[0]));
    }
}

/// A screen is said by the pixels it shows, which its scale multiplies, and by its refresh rate to the
/// nearest hertz: within half a hertz of the true one.
pub proof fn a_screen_is_said_in_pixels_and_hertz(m: Monitor, hertz: int)
    requires
        m.scale > 0,
        m.refresh > 0,
        hertz * 1000 - 500 <= m.refresh < hertz * 1000 + 500,
    ensures
        mode_text(m) == decimal(m.width * m.scale) + " × "@ + decimal(m.height * m.scale) + " · "@
            + decimal(hertz) + " Hz"@,
        mode_text(Monitor { refresh: 0, ..m }) == decimal(m.width * m.scale) + " × "@ + decimal(
            m.height * m.scale,
        ),
        mode_text(Monitor { scale: 0, ..m }) == mode_text(Monitor { scale: 1, ..m }),
{
    assert((m.refresh + 500) / 1000 == hertz);
}

/// Of several monitors the one with the most pixels counts, and it is one of them.
pub proof fn the_shown_monitor_is_one_of_them(monitors: Seq<Monitor>, i: int)
    requires
        0 <= i < monitors.len(),
    ensures
        largest(monitors) is Some,
        monitors.contains(largest(monitors)->0),
        largest(monitors)->0.width * largest(monitors)->0.height >= monitors[i].width
            * monitors[i].height,
    decreases monitors.len(),
{
    the_largest_is_shown(monitors, i);
    let init = monitors.drop_last();
    assert(monitors.contains(monitors.last()));
    if init.len() > 0 {
        the_shown_monitor_is_one_of_them(init, 0);
        let k = choose|k: int| 0 <= k < init.len() && init[k] == largest(init)->0;
        assert(monitors[k] == init[k]);
    }
}

/// Clocks are chosen for the first card that has a clock file; the one that is held at its highest is lit.
pub proof fn clocks_are_chosen_for_the_first_card_that_has_them(
    gpus: Seq<GpuModel>,
    files: Set<Seq<char>>,
    texts: Map<Seq<char>, Seq<char>>,
    k: int,
)
    requires
        0 <= k < gpus.len(),
        is_tunable(gpus[k], files),
        forall|j: int| 0 <= j < k ==> !is_tunable(#[trigger] gpus[j], files),
    ensures
        clocks_of(gpus, files, texts).card == gpus[k].card,
        clocks_of(gpus, files, texts).current == policy_of(gpus[k], files, texts),
        clocks_of(gpus, files, texts).value is None,
        clocks_of(gpus, files, texts).lit <==> policy_of(gpus[k], files, texts) == Some(GpuMode::High),
        policy_of(gpus[k], files, texts) == Some(GpuMode::Low) ==> clocks_of(gpus, files, texts).selected
            == Some(0usize),
        policy_of(gpus[k], files, texts) == Some(GpuMode::Auto) ==> clocks_of(
            gpus,
            files,
            texts,
        ).selected == Some(1usize),
        policy_of(gpus[k], files, texts) == Some(GpuMode::High) ==> clocks_of(
            gpus,
            files,
            texts,
        ).selected == Some(2usize),
        policy_of(gpus[k], files, texts) is None ==> clocks_of(gpus, files, texts).selected is None,
{
    crate::lists::lemma_first_is(gpus, |g: GpuModel| is_tunable(g, files), k);
}

/// Where no card has a clock file there is nothing to choose.
pub proof fn without_a_clock_file_there_is_no_choice(
    gpus: Seq<GpuModel>,
    files: Set<Seq<char>>,
    texts: Map<Seq<char>, Seq<char>>,
)
    requires
        forall|j: int| 0 <= j < gpus.len() ==> !is_tunable(#[trigger] gpus[j], files),
    ensures
        clocks_of(gpus, files, texts).card is None,
        clocks_of(gpus, files, texts).selected is None,
        clocks_of(gpus, files, texts).value is Some,
        !clocks_of(gpus, files, texts).lit,
{
    crate::lists::lemma_first_none(gpus, |g: GpuModel| is_tunable(g, files));
}

/// The list is marked as done exactly where every check that says anything is clear, and shows each check.
pub proof fn the_list_is_done_when_all_is_clear(checks: Seq<CheckModel>)
    ensures
        readiness_of(checks).rows.len() == checks.len(),
        forall|i: int|
            0 <= i < checks.len() ==> (#[trigger] readiness_of(checks).rows[i]).title == checks[i].title
                && readiness_of(checks).rows[i].state == checks[i].state,
        readiness_of(checks).class == (if forall|i: int|
            0 <= i < checks.len() ==> (#[trigger] checks[i]).state == State::Good || checks[i].state
                == State::Unknown {
            "installed"@
        } else {
            "warning"@
        }),
{
    lemma_score(checks);
}

/// As many checks are clear as say anything exactly where each of those is clear.
proof fn lemma_score(checks: Seq<CheckModel>)
    ensures
        score_of(checks).0 <= score_of(checks).1,
        score_of(checks).0 == score_of(checks).1 <==> forall|i: int|
            0 <= i < checks.len() ==> (#[trigger] checks[i]).state == State::Good || checks[i].state
                == State::Unknown,
    decreases checks.len(),
{
    if checks.len() == 0 {
        assert(checks =~= Seq::empty());
        crate::checks::the_score_counts_each_check(checks, arbitrary());
    } else {
        let init = checks.drop_last();
        let last = checks.last();
        lemma_score(init);
        crate::checks::the_score_counts_each_check(init, last);
        assert(init.push(last) =~= checks);
        assert(checks[checks.len() - 1] == last);
        assert forall|i: int| 0 <= i < init.len() implies init[i] == #[trigger] checks[i] by {}
        if score_of(checks).0 == score_of(checks).1 {
            assert forall|i: int| 0 <= i < checks.len() implies (#[trigger] checks[i]).state
                == State::Good || checks[i].state == State::Unknown by {
                if i < init.len() {
                    assert(init[i] == checks[i]);
                }
            }
        } else if forall|i: int|
            0 <= i < checks.len() ==> (#[trigger] checks[i]).state == State::Good || checks[i].state
                == State::Unknown {
            assert forall|i: int| 0 <= i < init.len() implies (#[trigger] init[i]).state == State::Good
                || init[i].state == State::Unknown by {
                assert(init[i] == checks[i]);
            }
        }
    }
}

} // verus!
