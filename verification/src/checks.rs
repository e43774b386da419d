//! The readiness list: everything that has to be true before a game runs well, each one reduced to
//! a sentence and, where there is one, a fix.
//!
//! A check never guesses. Where the state cannot be established — `vulkaninfo` is not installed, so
//! whether Vulkan works is genuinely unknown — the answer is unknown, rather than a pass that has not
//! been observed.
use vstd::prelude::*;
use crate::collections::NameSet;
use crate::drivers::{
    kernels_missing_modules, kernels_of, missing_kernels, missing_packages, modules_of,
    requirements_of, DkmsModel, DkmsModule, Kernel, KernelModel, Requirement,
    RequirementModel,
};
use crate::gpu::{
    best_discrete, cards, driver_label, gaming_gpu, gpu_title, no_discrete, vendor_name, DriverKind,
    the_best_card_is_one, Gpu, GpuModel, IcdModel, VulkanIcd, Vendor,
};
use crate::lists::{distinct, lemma_distinct, lemma_filter_map_step, lemma_filter_step};
use crate::number::{decimal, decimal_of, u64_of};
use crate::query::among;
use crate::text::{
    cat2, cat3, cat4, cat5, chars_of, contains, equal, holds, join, joined, starts_with, trim,
};
use crate::tune::{
    change_of, file_limit, needed, tweak_title, tweaks_needed, Settings, SettingsModel, Tweak,
};

verus! {

#[derive(Debug, Clone, Copy, PartialEq, Eq, PartialOrd, Ord, Structural)]
pub enum State {
    /// Nothing to do.
    Good,
    /// Works, but something is being left on the table.
    Advisory,
    /// A game will not run, or will run badly enough to notice.
    Problem,
    /// Could not be established.
    Unknown,
}

/// The icon of a state.
pub open spec fn state_icon(s: State) -> Seq<char> {
    match s {
        State::Good => "emblem-ok-symbolic"@,
        State::Advisory => "dialog-information-symbolic"@,
        State::Problem => "dialog-warning-symbolic"@,
        State::Unknown => "dialog-question-symbolic"@,
    }
}

/// A state in words.
pub open spec fn state_text(s: State) -> Seq<char> {
    match s {
        State::Good => "Ready"@,
        State::Advisory => "Could be better"@,
        State::Problem => "Needs attention"@,
        State::Unknown => "Unknown"@,
    }
}

impl State {
    pub fn icon(self) -> (r: &'static str)
        ensures
            r@ == state_icon(self),
    {
        match self {
            State::Good => "emblem-ok-symbolic",
            State::Advisory => "dialog-information-symbolic",
            State::Problem => "dialog-warning-symbolic",
            State::Unknown => "dialog-question-symbolic",
        }
    }

    /// The style class the row's icon takes.
    pub fn css_class(self) -> (r: &'static str)
        ensures
            r@ == (match self {
                State::Good => "success"@,
                State::Advisory => "accent-text"@,
                State::Problem => "warning"@,
                State::Unknown => "dim"@,
            }),
    {
        match self {
            State::Good => "success",
            State::Advisory => "accent-text",
            State::Problem => "warning",
            State::Unknown => "dim",
        }
    }

    /// The state in words.
    pub fn text(self) -> (r: &'static str)
        ensures
            r@ == state_text(self),
    {
        match self {
            State::Good => "Ready",
            State::Advisory => "Could be better",
            State::Problem => "Needs attention",
            State::Unknown => "Unknown",
        }
    }
}

/// Something the app can do about a failing check, without the person having to know what it is.
#[derive(Debug, PartialEq, Eq)]
pub enum Fix {
    /// Install these packages, through rvn.
    Install(Vec<String>),
    /// Build DKMS modules for these kernels.
    BuildModules(Vec<String>),
    /// Apply the system settings.
    ApplyTweaks,
    /// Nothing this app can do; the text says what the person can.
    Manual(&'static str),
}

/// What a fix is.
#[verifier::ext_equal]
pub enum FixModel {
    Install(Seq<Seq<char>>),
    BuildModules(Seq<Seq<char>>),
    ApplyTweaks,
    Manual(Seq<char>),
}

impl DeepView for Fix {
    type V = FixModel;

    open spec fn deep_view(&self) -> FixModel {
        match self {
            Fix::Install(names) => FixModel::Install(names.deep_view()),
            Fix::BuildModules(kernels) => FixModel::BuildModules(kernels.deep_view()),
            Fix::ApplyTweaks => FixModel::ApplyTweaks,
            Fix::Manual(text) => FixModel::Manual(text@),
        }
    }
}

/// A copy of a list of strings.
pub fn copied_strings(list: &Vec<String>) -> (r: Vec<String>)
    ensures
        r.deep_view() == list.deep_view(),
{
    let ghost every = list.deep_view();
    let mut out: Vec<String> = Vec::new();
    let mut i: usize = 0;
    while i < list.len()
        invariant
            i <= list.len(),
            every == list.deep_view(),
            out.deep_view() == every.take(i as int),
        decreases list.len() - i,
    {
        let ghost before = out.deep_view();
        out.push(list[i].clone());
        assert(out.deep_view() =~= before.push(every[i as int]));
        i = i + 1;
        assert(out.deep_view() =~= every.take(i as int));
    }
    assert(every.take(i as int) =~= every);
    out
}

impl Clone for Fix {
    fn clone(&self) -> (r: Fix)
        ensures
            r.deep_view() == self.deep_view(),
    {
        match self {
            Fix::Install(names) => Fix::Install(copied_strings(names)),
            Fix::BuildModules(kernels) => Fix::BuildModules(copied_strings(kernels)),
            Fix::ApplyTweaks => Fix::ApplyTweaks,
            Fix::Manual(text) => Fix::Manual(text),
        }
    }
}

#[derive(Debug, Clone, PartialEq, Eq)]
pub struct Check {
    pub title: String,
    pub detail: String,
    pub state: State,
    pub fix: Option<Fix>,
}

/// What a check says.
#[verifier::ext_equal]
pub struct CheckModel {
    pub title: Seq<char>,
    pub detail: Seq<char>,
    pub state: State,
    pub fix: Option<FixModel>,
}

impl DeepView for Check {
    type V = CheckModel;

    open spec fn deep_view(&self) -> CheckModel {
        CheckModel {
            title: self.title@,
            detail: self.detail@,
            state: self.state,
            fix: self.fix.deep_view(),
        }
    }
}

/// A check that found nothing to do.
pub open spec fn good_check(title: Seq<char>, detail: Seq<char>) -> CheckModel {
    CheckModel { title, detail, state: State::Good, fix: None }
}

/// A check that found a problem.
pub open spec fn problem_check(
    title: Seq<char>,
    detail: Seq<char>,
    fix: Option<FixModel>,
) -> CheckModel {
    CheckModel { title, detail, state: State::Problem, fix }
}

/// A check that found something to improve.
pub open spec fn advisory_check(
    title: Seq<char>,
    detail: Seq<char>,
    fix: Option<FixModel>,
) -> CheckModel {
    CheckModel { title, detail, state: State::Advisory, fix }
}

impl Check {
    pub fn good(title: &str, detail: &str) -> (r: Check)
        ensures
            r.deep_view() == good_check(title@, detail@),
    {
        Check {
            title: String::from_str(title),
            detail: String::from_str(detail),
            state: State::Good,
            fix: None,
        }
    }

    pub fn problem(title: &str, detail: &str, fix: Option<Fix>) -> (r: Check)
        ensures
            r.deep_view() == problem_check(title@, detail@, fix.deep_view()),
    {
        Check {
            title: String::from_str(title),
            detail: String::from_str(detail),
            state: State::Problem,
            fix,
        }
    }

    pub fn advisory(title: &str, detail: &str, fix: Option<Fix>) -> (r: Check)
        ensures
            r.deep_view() == advisory_check(title@, detail@, fix.deep_view()),
    {
        Check {
            title: String::from_str(title),
            detail: String::from_str(detail),
            state: State::Advisory,
            fix,
        }
    }
}

/// What was observed of a system besides its cards, packages and kernels.
#[derive(Debug)]
pub struct Observed {
    pub dkms_available: bool,
    pub icds: Vec<VulkanIcd>,
    /// Whether `vulkaninfo` is installed, without which nothing can say that Vulkan works.
    pub vulkaninfo: bool,
    pub has_32bit_stack: bool,
    pub settings: Settings,
    pub steam_installed: bool,
    /// How many games the launchers know.
    pub games: u64,
}

/// Everything read once, so a page redraw does not run `dkms status` and read the package database
/// again for every row.
pub struct System {
    pub gpus: Vec<Gpu>,
    pub packages: NameSet,
    pub kernels: Vec<Kernel>,
    pub dkms: Vec<DkmsModule>,
    pub missing: Vec<Requirement>,
    pub observed: Observed,
}

/// What is known of a system.
#[verifier::ext_equal]
pub struct SystemModel {
    pub gpus: Seq<GpuModel>,
    pub packages: Set<Seq<char>>,
    pub kernels: Seq<KernelModel>,
    pub dkms: Seq<DkmsModel>,
    pub missing: Seq<RequirementModel>,
    pub dkms_available: bool,
    pub icds: Seq<IcdModel>,
    pub vulkaninfo: bool,
    pub has_32bit_stack: bool,
    pub settings: SettingsModel,
    pub steam_installed: bool,
    pub games: u64,
}

impl DeepView for System {
    type V = SystemModel;

    open spec fn deep_view(&self) -> SystemModel {
        SystemModel {
            gpus: self.gpus.deep_view(),
            packages: self.packages@,
            kernels: self.kernels.deep_view(),
            dkms: self.dkms.deep_view(),
            missing: self.missing.deep_view(),
            dkms_available: self.observed.dkms_available,
            icds: self.observed.icds.deep_view(),
            vulkaninfo: self.observed.vulkaninfo,
            has_32bit_stack: self.observed.has_32bit_stack,
            settings: self.observed.settings.deep_view(),
            steam_installed: self.observed.steam_installed,
            games: self.observed.games,
        }
    }
}

impl System {
    /// A system from everything that was read of it; what its cards are missing is worked out
    /// here, once.
    pub fn read(
        gpus: Vec<Gpu>,
        packages: NameSet,
        kernels: Vec<Kernel>,
        dkms: Vec<DkmsModule>,
        observed: Observed,
    ) -> (r: System)
        ensures
            r.deep_view() == (SystemModel {
                gpus: gpus.deep_view(),
                packages: packages@,
                kernels: kernels.deep_view(),
                dkms: dkms.deep_view(),
                missing: requirements_of(gpus.deep_view(), among(packages@)),
                dkms_available: observed.dkms_available,
                icds: observed.icds.deep_view(),
                vulkaninfo: observed.vulkaninfo,
                has_32bit_stack: observed.has_32bit_stack,
                settings: observed.settings.deep_view(),
                steam_installed: observed.steam_installed,
                games: observed.games,
            }),
    {
        let missing = missing_packages(&gpus, &packages);
        assert(cards(gpus@) =~= gpus.deep_view());
        System { gpus, packages, kernels, dkms, missing, observed }
    }

    pub fn has(&self, package: &str) -> (r: bool)
        ensures
            r == self.deep_view().packages.contains(package@),
    {
        self.packages.contains(package)
    }
}

/// The whole readiness list, in the order it is worth reading.
pub open spec fn checklist(s: SystemModel) -> Seq<CheckModel> {
    seq![
        driver_status(s),
        libraries_status(s),
        modules_status(s),
        vulkan_status(s),
        thirty_two_bit_status(s),
        tweaks_status(s),
        launchers_status(s),
        helpers_status(s),
    ]
}

/// The whole readiness list, in the order it is worth reading.
pub fn all(system: &System) -> (r: Vec<Check>)
    ensures
        r.deep_view() == checklist(system.deep_view()),
{
    let mut checks: Vec<Check> = Vec::new();
    checks.push(driver_check(system));
    checks.push(libraries_check(system));
    checks.push(modules_check(system));
    checks.push(vulkan_check(system));
    checks.push(thirty_two_bit_check(system));
    checks.push(tweaks_check(system));
    checks.push(steam_check(system));
    checks.push(extras_check(system));
    assert(checks.deep_view() =~= checklist(system.deep_view()));
    checks
}

/// What each check of a list says.
pub open spec fn check_models(checks: Seq<Check>) -> Seq<CheckModel> {
    Seq::new(checks.len(), |i: int| checks[i].deep_view())
}

/// How many checks are clear, and how many say anything.
pub open spec fn score_of(checks: Seq<CheckModel>) -> (int, int) {
    (
        checks.filter(|c: CheckModel| c.state == State::Good).len() as int,
        checks.filter(|c: CheckModel| c.state != State::Unknown).len() as int,
    )
}

/// A single number for the hero: how many checks are clear, of how many that say anything.
pub fn score(checks: &[Check]) -> (r: (usize, usize))
    ensures
        (r.0 as int, r.1 as int) == score_of(check_models(checks@)),
{
    let ghost every = check_models(checks@);
    let ghost p = |c: CheckModel| c.state == State::Good;
    let ghost q = |c: CheckModel| c.state != State::Unknown;
    let mut good: usize = 0;
    let mut counted: usize = 0;
    let mut i: usize = 0;
    proof {
        reveal(Seq::filter);
    }
    while i < checks.len()
        invariant
            i <= checks.len(),
            every == check_models(checks@),
            p == (|c: CheckModel| c.state == State::Good),
            q == (|c: CheckModel| c.state != State::Unknown),
            good <= i,
            counted <= i,
            good == every.take(i as int).filter(p).len(),
            counted == every.take(i as int).filter(q).len(),
        decreases checks.len() - i,
    {
        proof {
            lemma_filter_step(every, i as int, p);
            lemma_filter_step(every, i as int, q);
            assert(every[i as int] == checks@[i as int].deep_view());
        }
        if checks[i].state == State::Good {
            good = good + 1;
        }
        if checks[i].state != State::Unknown {
            counted = counted + 1;
        }
        i = i + 1;
    }
    assert(every.take(i as int) =~= every);
    (good, counted)
}

/// Some check is in a state.
pub open spec fn any_in(checks: Seq<CheckModel>, state: State) -> bool {
    exists|i: int| 0 <= i < checks.len() && (#[trigger] checks[i]).state == state
}

/// The state that a whole list is in: a problem outranks an advisory, which outranks everything
/// being fine.
pub open spec fn overall(checks: Seq<CheckModel>) -> State {
    if any_in(checks, State::Problem) {
        State::Problem
    } else if any_in(checks, State::Advisory) {
        State::Advisory
    } else {
        State::Good
    }
}

fn has_state(checks: &[Check], state: State) -> (r: bool)
    ensures
        r == any_in(check_models(checks@), state),
{
    let mut i: usize = 0;
    while i < checks.len()
        invariant
            i <= checks.len(),
            forall|j: int| 0 <= j < i ==> (#[trigger] check_models(checks@)[j]).state != state,
        decreases checks.len() - i,
    {
        assert(check_models(checks@)[i as int].state == checks@[i as int].state);
        if checks[i].state == state {
            return true;
        }
        i = i + 1;
    }
    false
}

/// The headline over a list that is in some state.
pub open spec fn headline_for(state: State) -> Seq<char> {
    if state == State::Problem {
        "Games will not run properly yet"@
    } else {
        "Ready to play"@
    }
}

/// What is said under the headline over a list that is in some state.
pub open spec fn blurb_for(state: State) -> Seq<char> {
    if state == State::Problem {
        "Something below stops a game starting, or makes it far slower than it should be."@
    } else if state == State::Advisory {
        "Everything a game needs is in place. What is left below is optional."@
    } else {
        "Drivers, libraries and system settings are all where they should be."@
    }
}

/// The headline over the readiness list.
pub fn verdict(checks: &[Check]) -> (r: (State, &'static str, &'static str))
    ensures
        r.0 == overall(check_models(checks@)),
        r.1@ == headline_for(r.0),
        r.2@ == blurb_for(r.0),
{
    if has_state(checks, State::Problem) {
        (
            State::Problem,
            "Games will not run properly yet",
            "Something below stops a game starting, or makes it far slower than it should be.",
        )
    } else if has_state(checks, State::Advisory) {
        (
            State::Advisory,
            "Ready to play",
            "Everything a game needs is in place. What is left below is optional.",
        )
    } else {
        (
            State::Good,
            "Ready to play",
            "Drivers, libraries and system settings are all where they should be.",
        )
    }
}

// ---------------------------------------------------------------------------
// Gathering the fixes
// ---------------------------------------------------------------------------

/// The packages that a fix installs.
pub open spec fn packages_of(fix: Option<FixModel>) -> Seq<Seq<char>> {
    match fix {
        Some(FixModel::Install(names)) => names,
        _ => Seq::empty(),
    }
}

/// The kernels that a fix builds modules for.
pub open spec fn kernels_in(fix: Option<FixModel>) -> Seq<Seq<char>> {
    match fix {
        Some(FixModel::BuildModules(kernels)) => kernels,
        _ => Seq::empty(),
    }
}

/// The packages that the fixes of some checks install, check by check.
pub open spec fn all_packages(checks: Seq<CheckModel>) -> Seq<Seq<char>>
    decreases checks.len(),
{
    if checks.len() == 0 {
        Seq::empty()
    } else {
        all_packages(checks.drop_last()) + packages_of(checks.last().fix)
    }
}

/// The kernels that the fixes of some checks build modules for, check by check.
pub open spec fn all_kernels(checks: Seq<CheckModel>) -> Seq<Seq<char>>
    decreases checks.len(),
{
    if checks.len() == 0 {
        Seq::empty()
    } else {
        all_kernels(checks.drop_last()) + kernels_in(checks.last().fix)
    }
}

/// Some check asks for the system settings.
pub open spec fn wants_tweaks(checks: Seq<CheckModel>) -> bool {
    exists|i: int|
        0 <= i < checks.len() && (#[trigger] checks[i]).fix == Some(FixModel::ApplyTweaks)
}

/// The fixes of some checks, gathered: one package transaction, one module build and one settings
/// change at most.
pub open spec fn gathered(checks: Seq<CheckModel>) -> Seq<FixModel> {
    let packages = distinct(all_packages(checks));
    let kernels = distinct(all_kernels(checks));
    (if packages.len() > 0 {
        seq![FixModel::Install(packages)]
    } else {
        Seq::empty()
    }) + (if kernels.len() > 0 {
        seq![FixModel::BuildModules(kernels)]
    } else {
        Seq::empty()
    }) + (if wants_tweaks(checks) {
        seq![FixModel::ApplyTweaks]
    } else {
        Seq::empty()
    })
}

/// Whether a list of strings holds a text.
pub fn has_string(list: &Vec<String>, text: &str) -> (r: bool)
    ensures
        r == list.deep_view().contains(text@),
{
    let mut i: usize = 0;
    while i < list.len()
        invariant
            i <= list.len(),
            forall|j: int| 0 <= j < i ==> list.deep_view()[j] != text@,
        decreases list.len() - i,
    {
        assert(list.deep_view()[i as int] == list@[i as int]@);
        if equal(&list[i], text) {
            return true;
        }
        i = i + 1;
    }
    false
}

/// Adds the strings of a list that are not there yet.
fn add_new(list: &mut Vec<String>, more: &Vec<String>, Ghost(all): Ghost<Seq<Seq<char>>>)
    requires
        old(list).deep_view() == distinct(all),
    ensures
        final(list).deep_view() == distinct(all + more.deep_view()),
{
    let ghost every = more.deep_view();
    let mut i: usize = 0;
    assert(all + every.take(0) =~= all);
    while i < more.len()
        invariant
            i <= more.len(),
            every == more.deep_view(),
            list.deep_view() == distinct(all + every.take(i as int)),
        decreases more.len() - i,
    {
        let ghost before = list.deep_view();
        let ghost next = all + every.take(i + 1);
        assert(next.drop_last() =~= all + every.take(i as int));
        assert(next.last() == more@[i as int]@);
        if !has_string(list, &more[i]) {
            list.push(more[i].clone());
            assert(list.deep_view() =~= before.push(more@[i as int]@));
        }
        i = i + 1;
    }
    assert(every.take(i as int) =~= every);
}

/// Every fix the list offers, gathered into as few operations as possible — one package
/// transaction, one module build, one settings change — so that fixing everything asks for a
/// password once rather than five times.
pub fn combined_fixes(checks: &[Check]) -> (r: Vec<Fix>)
    ensures
        r.deep_view() == gathered(check_models(checks@)),
{
    let ghost every = check_models(checks@);
    let mut packages: Vec<String> = Vec::new();
    let mut kernels: Vec<String> = Vec::new();
    let mut tweaks: bool = false;
    let mut i: usize = 0;
    assert(packages.deep_view() =~= Seq::empty());
    assert(kernels.deep_view() =~= Seq::empty());
    while i < checks.len()
        invariant
            i <= checks.len(),
            every == check_models(checks@),
            packages.deep_view() == distinct(all_packages(every.take(i as int))),
            kernels.deep_view() == distinct(all_kernels(every.take(i as int))),
            tweaks == wants_tweaks(every.take(i as int)),
        decreases checks.len() - i,
    {
        let ghost sofar = every.take(i as int);
        let ghost next = every.take(i + 1);
        assert(next.drop_last() =~= sofar);
        assert(next.last() == checks@[i as int].deep_view());
        assert(all_packages(sofar) + Seq::<Seq<char>>::empty() =~= all_packages(sofar));
        assert(all_kernels(sofar) + Seq::<Seq<char>>::empty() =~= all_kernels(sofar));
        let ghost asks = next.last().fix == Some(FixModel::ApplyTweaks);
        proof {
            if wants_tweaks(sofar) {
                let k = choose|k: int|
                    0 <= k < sofar.len() && (#[trigger] sofar[k]).fix == Some(
                        FixModel::ApplyTweaks,
                    );
                assert(next[k].fix == Some(FixModel::ApplyTweaks));
            }
            if asks {
                assert(next[i as int].fix == Some(FixModel::ApplyTweaks));
            }
            if wants_tweaks(next) && !asks {
                let k = choose|k: int|
                    0 <= k < next.len() && (#[trigger] next[k]).fix == Some(FixModel::ApplyTweaks);
                assert(sofar[k].fix == Some(FixModel::ApplyTweaks));
            }
        }
        match &checks[i].fix {
            Some(Fix::Install(names)) => {
                add_new(&mut packages, names, Ghost(all_packages(sofar)));
            },
            Some(Fix::BuildModules(list)) => {
                add_new(&mut kernels, list, Ghost(all_kernels(sofar)));
            },
            Some(Fix::ApplyTweaks) => {
                tweaks = true;
            },
            Some(Fix::Manual(_)) => {},
            None => {},
        }
        i = i + 1;
    }
    assert(every.take(i as int) =~= every);
    let mut fixes: Vec<Fix> = Vec::new();
    if packages.len() > 0 {
        fixes.push(Fix::Install(packages));
    }
    if kernels.len() > 0 {
        fixes.push(Fix::BuildModules(kernels));
    }
    if tweaks {
        fixes.push(Fix::ApplyTweaks);
    }
    assert(fixes.deep_view() =~= gathered(every));
    fixes
}

// ---------------------------------------------------------------------------
// The checks themselves
// ---------------------------------------------------------------------------

/// The packages of some requirements with a property.
pub open spec fn packages_where(
    missing: Seq<RequirementModel>,
    p: spec_fn(RequirementModel) -> bool,
) -> Seq<Seq<char>> {
    missing.filter_map(
        |r: RequirementModel|
            if p(r) {
                Some(r.package)
            } else {
                None
            },
    )
}

/// A requirement is part of a graphics driver.
pub open spec fn is_driver(r: RequirementModel) -> bool {
    contains(r.package, "nvidia"@) || contains(r.package, "dkms"@)
}

/// A requirement is part of Vulkan.
pub open spec fn is_vulkan(r: RequirementModel) -> bool {
    contains(r.package, "vulkan"@) || contains(r.package, "nvidia-utils"@)
}

/// A requirement is a 32-bit package.
pub open spec fn is_lib32(r: RequirementModel) -> bool {
    "lib32-"@.is_prefix_of(r.package)
}

/// The kinds of requirement that checks single out.
#[derive(Clone, Copy)]
enum Wanted {
    Driver,
    Vulkan,
    /// A 32-bit package that is not essential.
    Lib32,
    Essential,
    /// An essential package that is no part of a driver.
    Library,
}

spec fn is_wanted(w: Wanted) -> spec_fn(RequirementModel) -> bool {
    match w {
        Wanted::Driver => |r: RequirementModel| is_driver(r),
        Wanted::Vulkan => |r: RequirementModel| is_vulkan(r),
        Wanted::Lib32 => |r: RequirementModel| is_lib32(r) && !r.essential,
        Wanted::Essential => |r: RequirementModel| r.essential,
        Wanted::Library => |r: RequirementModel| r.essential && !is_driver(r),
    }
}

fn wanted_packages(missing: &Vec<Requirement>, w: Wanted) -> (r: Vec<String>)
    ensures
        r.deep_view() == packages_where(missing.deep_view(), is_wanted(w)),
{
    let ghost every = missing.deep_view();
    let ghost p = is_wanted(w);
    let ghost f = |r: RequirementModel|
        if p(r) {
            Some(r.package)
        } else {
            None
        };
    let mut out: Vec<String> = Vec::new();
    let mut i: usize = 0;
    while i < missing.len()
        invariant
            i <= missing.len(),
            every == missing.deep_view(),
            p == is_wanted(w),
            f == (|r: RequirementModel|
                if p(r) {
                    Some(r.package)
                } else {
                    None
                }),
            out.deep_view() == every.take(i as int).filter_map(f),
        decreases missing.len() - i,
    {
        proof {
            lemma_filter_map_step(every, i as int, f);
            assert(every[i as int] == missing@[i as int].deep_view());
        }
        let ghost before = out.deep_view();
        let package = chars_of(&missing[i].package);
        let take: bool = match w {
            Wanted::Driver => holds(&package, "nvidia") || holds(&package, "dkms"),
            Wanted::Vulkan => holds(&package, "vulkan") || holds(&package, "nvidia-utils"),
            Wanted::Lib32 => starts_with(&package, "lib32-") && !missing[i].essential,
            Wanted::Essential => missing[i].essential,
            Wanted::Library => missing[i].essential && !holds(&package, "nvidia") && !holds(
                &package,
                "dkms",
            ),
        };
        if take {
            out.push(missing[i].package.clone());
            assert(out.deep_view() =~= before.push(every[i as int].package));
        }
        i = i + 1;
    }
    assert(every.take(i as int) =~= every);
    out
}

/// The fix that installs packages; none where there is none to install, as such a fix would do
/// nothing.
pub open spec fn install_of(names: Seq<Seq<char>>) -> Option<FixModel> {
    if names.len() > 0 {
        Some(FixModel::Install(names))
    } else {
        None
    }
}

fn install_fix(names: Vec<String>) -> (r: Option<Fix>)
    ensures
        r.deep_view() == install_of(names.deep_view()),
{
    if names.len() > 0 {
        Some(Fix::Install(names))
    } else {
        None
    }
}

/// The card that is worth playing on, where there is one: the best discrete one, or the first card
/// where none is discrete.
pub open spec fn playing_card(gpus: Seq<GpuModel>) -> Option<GpuModel> {
    if gpus.len() == 0 {
        None
    } else if no_discrete(gpus) {
        Some(gpus[0])
    } else {
        Some(gpus[choose|k: int| best_discrete(gpus, k, gpus.len() as int)])
    }
}

/// The card that is worth playing on, where there is one.
pub fn card_to_play_on(gpus: &Vec<Gpu>) -> (r: Option<&Gpu>)
    ensures
        r is Some == playing_card(gpus.deep_view()) is Some,
        r is Some ==> r->0.deep_view() == playing_card(gpus.deep_view())->0,
{
    assert(cards(gpus@) =~= gpus.deep_view());
    let found = gaming_gpu(gpus);
    proof {
        let all = gpus.deep_view();
        if found is Some && !no_discrete(all) {
            let gpu = found->0;
            let k = choose|k: int| best_discrete(all, k, all.len() as int);
            let m = choose|m: int|
                best_discrete(all, m, all.len() as int) && *gpu == #[trigger] gpus@[m];
            the_best_card_is_one(all, k, m);
        }
    }
    found
}

/// The driver packages that the missing ones are already asking for, if any.
pub open spec fn driver_fix(s: SystemModel) -> Option<FixModel> {
    install_of(packages_where(s.missing, |r: RequirementModel| is_driver(r)))
}

/// The driver check offers a driver: the card worth playing on has none, or Nouveau.
pub open spec fn offers_driver(s: SystemModel) -> bool {
    match playing_card(s.gpus) {
        Some(g) => g.driver is Unbound || g.driver is Nouveau,
        None => false,
    }
}

/// Whether the card worth playing on has a driver.
pub open spec fn driver_status(s: SystemModel) -> CheckModel {
    match playing_card(s.gpus) {
        None => CheckModel {
            title: "Graphics card"@,
            detail: "No graphics card was found on the PCI bus. In a virtual machine this is normal; on real hardware it is not."@,
            state: State::Unknown,
            fix: None,
        },
        Some(g) => {
            let title = "Driver for "@ + gpu_title(g);
            if g.driver is Unbound {
                problem_check(
                    title,
                    "No kernel module is bound to this "@ + vendor_name(g.vendor)
                        + " card, so nothing can render on it."@,
                    driver_fix(s),
                )
            } else if g.driver is Nouveau {
                problem_check(
                    title,
                    "Nouveau cannot raise this card's clocks, so games run at a fraction of the speed the hardware is capable of. NVIDIA's own driver is the fix."@,
                    driver_fix(s),
                )
            } else {
                good_check(title, driver_label(g.driver) + " is loaded and driving the card."@)
            }
        },
    }
}

fn driver_install_fix(system: &System) -> (r: Option<Fix>)
    ensures
        r.deep_view() == driver_fix(system.deep_view()),
{
    install_fix(wanted_packages(&system.missing, Wanted::Driver))
}

fn driver_check(system: &System) -> (r: Check)
    ensures
        r.deep_view() == driver_status(system.deep_view()),
{
    match card_to_play_on(&system.gpus) {
        None => Check {
            title: String::from_str("Graphics card"),
            detail: String::from_str(
                "No graphics card was found on the PCI bus. In a virtual machine this is normal; on real hardware it is not.",
            ),
            state: State::Unknown,
            fix: None,
        },
        Some(gpu) => {
            let title = cat2("Driver for ", &gpu.title());
            match gpu.driver {
                DriverKind::Unbound => Check::problem(
                    &title,
                    &cat3(
                        "No kernel module is bound to this ",
                        gpu.vendor.name(),
                        " card, so nothing can render on it.",
                    ),
                    driver_install_fix(system),
                ),
                DriverKind::Nouveau => Check::problem(
                    &title,
                    "Nouveau cannot raise this card's clocks, so games run at a fraction of the speed the hardware is capable of. NVIDIA's own driver is the fix.",
                    driver_install_fix(system),
                ),
                driver => Check::good(
                    &title,
                    &cat2(driver.label(), " is loaded and driving the card."),
                ),
            }
        },
    }
}

/// What is missing and essential, a line each.
pub open spec fn essential_lines(missing: Seq<RequirementModel>) -> Seq<Seq<char>> {
    missing.filter_map(
        |r: RequirementModel|
            if r.essential {
                Some(r.package + " — "@ + r.reason)
            } else {
                None
            },
    )
}

/// What the libraries check offers to install: what is missing and essential, without what the
/// driver check offers already, so that the two never offer to install the same thing twice.
pub open spec fn libraries_fix(s: SystemModel) -> Option<FixModel> {
    let names = if offers_driver(s) {
        packages_where(s.missing, |r: RequirementModel| r.essential && !is_driver(r))
    } else {
        packages_where(s.missing, |r: RequirementModel| r.essential)
    };
    install_of(names)
}

/// Whether the graphics libraries are there.
pub open spec fn libraries_status(s: SystemModel) -> CheckModel {
    let names = packages_where(s.missing, |r: RequirementModel| r.essential);
    if names.len() == 0 {
        good_check(
            "Graphics libraries"@,
            "Every OpenGL and Vulkan library your cards need is installed, 64-bit and 32-bit."@,
        )
    } else {
        problem_check(
            "Graphics libraries"@,
            join(essential_lines(s.missing), "\n"@),
            libraries_fix(s),
        )
    }
}

fn list_essential(missing: &Vec<Requirement>) -> (r: Vec<String>)
    ensures
        r.deep_view() == essential_lines(missing.deep_view()),
{
    let ghost every = missing.deep_view();
    let ghost f = |r: RequirementModel|
        if r.essential {
            Some(r.package + " — "@ + r.reason)
        } else {
            None
        };
    let mut out: Vec<String> = Vec::new();
    let mut i: usize = 0;
    while i < missing.len()
        invariant
            i <= missing.len(),
            every == missing.deep_view(),
            f == (|r: RequirementModel|
                if r.essential {
                    Some(r.package + " — "@ + r.reason)
                } else {
                    None
                }),
            out.deep_view() == every.take(i as int).filter_map(f),
        decreases missing.len() - i,
    {
        proof {
            lemma_filter_map_step(every, i as int, f);
            assert(every[i as int] == missing@[i as int].deep_view());
        }
        let ghost before = out.deep_view();
        if missing[i].essential {
            out.push(cat3(&missing[i].package, " — ", &missing[i].reason));
            assert(out.deep_view() =~= before.push(f(every[i as int])->0));
        }
        i = i + 1;
    }
    assert(every.take(i as int) =~= every);
    out
}

fn driver_is_offered(system: &System) -> (r: bool)
    ensures
        r == offers_driver(system.deep_view()),
{
    match card_to_play_on(&system.gpus) {
        Some(gpu) => matches!(gpu.driver, DriverKind::Unbound | DriverKind::Nouveau),
        None => false,
    }
}

fn libraries_install_fix(system: &System) -> (r: Option<Fix>)
    ensures
        r.deep_view() == libraries_fix(system.deep_view()),
{
    let names = if driver_is_offered(system) {
        wanted_packages(&system.missing, Wanted::Library)
    } else {
        wanted_packages(&system.missing, Wanted::Essential)
    };
    install_fix(names)
}

fn libraries_check(system: &System) -> (r: Check)
    ensures
        r.deep_view() == libraries_status(system.deep_view()),
{
    let names = wanted_packages(&system.missing, Wanted::Essential);
    if names.len() == 0 {
        return Check::good(
            "Graphics libraries",
            "Every OpenGL and Vulkan library your cards need is installed, 64-bit and 32-bit.",
        );
    }
    Check::problem(
        "Graphics libraries",
        &joined(&list_essential(&system.missing), "\n"),
        libraries_install_fix(system),
    )
}

/// The running kernel is among some.
pub open spec fn includes_running(kernels: Seq<KernelModel>, missing: Seq<Seq<char>>) -> bool {
    exists|i: int|
        0 <= i < kernels.len() && (#[trigger] kernels[i]).running && missing.contains(
            kernels[i].release,
        )
}

/// Whether the driver's modules are built for every kernel.
pub open spec fn modules_status(s: SystemModel) -> CheckModel {
    let title = "Driver modules for every kernel"@;
    let missing = missing_kernels(s.dkms, s.kernels);
    if !s.dkms_available || s.dkms.len() == 0 {
        good_check(
            title,
            "No driver on this system is built with DKMS, so there is nothing that a kernel update could leave behind."@,
        )
    } else if missing.len() == 0 {
        good_check(
            title,
            "Built for "@ + decimal(s.kernels.len() as int) + " installed kernel"@ + (if s.kernels.len()
                == 1 {
                ""@
            } else {
                "s"@
            }) + ". A kernel update will not leave you without a driver."@,
        )
    } else {
        problem_check(
            title,
            "The graphics module is not built for "@ + sentence(missing) + ". "@ + (
            if includes_running(s.kernels, missing) {
                "That includes the kernel you are running now."@
            } else if missing.len() == 1 {
                "Boot into it and the card will have no driver, which looks exactly like the driver having broken."@
            } else {
                "Boot into any of those and the card will have no driver, which looks exactly like the driver having broken."@
            }),
            Some(FixModel::BuildModules(missing)),
        )
    }
}

fn affects_running(kernels: &Vec<Kernel>, missing: &Vec<String>) -> (r: bool)
    ensures
        r == includes_running(kernels.deep_view(), missing.deep_view()),
{
    let mut i: usize = 0;
    while i < kernels.len()
        invariant
            i <= kernels.len(),
            forall|j: int|
                0 <= j < i ==> !((#[trigger] kernels.deep_view()[j]).running
                    && missing.deep_view().contains(kernels.deep_view()[j].release)),
        decreases kernels.len() - i,
    {
        assert(kernels.deep_view()[i as int] == kernels@[i as int].deep_view());
        if kernels[i].running && has_string(missing, &kernels[i].release) {
            return true;
        }
        i = i + 1;
    }
    false
}

fn modules_check(system: &System) -> (r: Check)
    ensures
        r.deep_view() == modules_status(system.deep_view()),
{
    assert(modules_of(system.dkms@) =~= system.dkms.deep_view());
    assert(kernels_of(system.kernels@) =~= system.kernels.deep_view());
    if !system.observed.dkms_available || system.dkms.len() == 0 {
        return Check::good(
            "Driver modules for every kernel",
            "No driver on this system is built with DKMS, so there is nothing that a kernel update could leave behind.",
        );
    }
    let missing = kernels_missing_modules(&system.dkms, &system.kernels);
    if missing.len() == 0 {
        let n: usize = system.kernels.len();
        return Check::good(
            "Driver modules for every kernel",
            &cat5(
                "Built for ",
                &decimal_of(n as u64),
                " installed kernel",
                if n == 1 {
                    ""
                } else {
                    "s"
                },
                ". A kernel update will not leave you without a driver.",
            ),
        );
    }
    let consequence: &str = if affects_running(&system.kernels, &missing) {
        "That includes the kernel you are running now."
    } else if missing.len() == 1 {
        "Boot into it and the card will have no driver, which looks exactly like the driver having broken."
    } else {
        "Boot into any of those and the card will have no driver, which looks exactly like the driver having broken."
    };
    let detail = cat4(
        "The graphics module is not built for ",
        &list(&missing),
        ". ",
        consequence,
    );
    Check::problem("Driver modules for every kernel", &detail, Some(Fix::BuildModules(missing)))
}

/// The manifests whose library is not there.
pub open spec fn broken_icds(icds: Seq<IcdModel>) -> Seq<Seq<char>> {
    icds.filter_map(
        |i: IcdModel|
            if !i.library_present {
                Some(i.file)
            } else {
                None
            },
    )
}

/// A machine has a card of a vendor.
pub open spec fn has_vendor(gpus: Seq<GpuModel>, v: Vendor) -> bool {
    exists|i: int| 0 <= i < gpus.len() && (#[trigger] gpus[i]).vendor == v
}

/// The vendors of the Vulkan drivers that are for a card of the machine, driver by driver.
pub open spec fn fitting_vendors(icds: Seq<IcdModel>, gpus: Seq<GpuModel>) -> Seq<Seq<char>> {
    icds.filter_map(
        |i: IcdModel|
            if has_vendor(gpus, i.vendor) {
                Some(vendor_name(i.vendor))
            } else {
                None
            },
    )
}

/// What the Vulkan check offers to install, if anything.
pub open spec fn vulkan_fix(s: SystemModel) -> Option<FixModel> {
    install_of(packages_where(s.missing, |r: RequirementModel| is_vulkan(r)))
}

/// Whether Vulkan has a driver for the machine's graphics. Without `vulkaninfo` a driver that is
/// there is not known to work.
pub open spec fn vulkan_status(s: SystemModel) -> CheckModel {
    let broken = broken_icds(s.icds);
    let vendors = fitting_vendors(s.icds, s.gpus);
    if s.icds.len() == 0 {
        problem_check(
            "Vulkan"@,
            "No Vulkan driver is installed. Almost every game from the last five years needs one, and Proton needs it for all of them."@,
            vulkan_fix(s),
        )
    } else if broken.len() > 0 {
        problem_check(
            "Vulkan"@,
            join(broken, ", "@)
                + " points at a driver library that is not on disk. This is a half-removed package, and Vulkan fails with an error that names neither."@,
            Some(
                FixModel::Manual(
                    "Reinstall the driver package that owns the manifest, or remove the stale file."@,
                ),
            ),
        )
    } else if vendors.len() == 0 {
        advisory_check(
            "Vulkan"@,
            decimal(s.icds.len() as int) + " Vulkan driver"@ + (if s.icds.len() == 1 {
                " is"@
            } else {
                "s are"@
            }) + " installed, but none of them is for the graphics in this machine."@,
            None,
        )
    } else if !s.vulkaninfo {
        CheckModel {
            title: "Vulkan"@,
            detail: "A Vulkan driver is installed for your "@ + sentence(vendors)
                + " graphics. vulkaninfo is not installed, so whether it works is not known."@,
            state: State::Unknown,
            fix: None,
        }
    } else {
        good_check(
            "Vulkan"@,
            "A Vulkan driver is installed for your "@ + sentence(vendors) + " graphics."@,
        )
    }
}

fn find_broken(icds: &Vec<VulkanIcd>) -> (r: Vec<String>)
    ensures
        r.deep_view() == broken_icds(icds.deep_view()),
{
    let ghost every = icds.deep_view();
    let ghost f = |i: IcdModel|
        if !i.library_present {
            Some(i.file)
        } else {
            None
        };
    let mut out: Vec<String> = Vec::new();
    let mut i: usize = 0;
    while i < icds.len()
        invariant
            i <= icds.len(),
            every == icds.deep_view(),
            f == (|i: IcdModel|
                if !i.library_present {
                    Some(i.file)
                } else {
                    None
                }),
            out.deep_view() == every.take(i as int).filter_map(f),
        decreases icds.len() - i,
    {
        proof {
            lemma_filter_map_step(every, i as int, f);
            assert(every[i as int] == icds@[i as int].deep_view());
        }
        let ghost before = out.deep_view();
        if !icds[i].library_present {
            out.push(icds[i].file.clone());
            assert(out.deep_view() =~= before.push(every[i as int].file));
        }
        i = i + 1;
    }
    assert(every.take(i as int) =~= every);
    out
}

/// Whether a machine has a card of a vendor.
pub fn owns_vendor(gpus: &Vec<Gpu>, vendor: Vendor) -> (r: bool)
    ensures
        r == has_vendor(gpus.deep_view(), vendor),
{
    let mut i: usize = 0;
    while i < gpus.len()
        invariant
            i <= gpus.len(),
            forall|j: int| 0 <= j < i ==> (#[trigger] gpus.deep_view()[j]).vendor != vendor,
        decreases gpus.len() - i,
    {
        assert(gpus.deep_view()[i as int] == gpus@[i as int].deep_view());
        if gpus[i].vendor == vendor {
            return true;
        }
        i = i + 1;
    }
    false
}

fn find_vendors(icds: &Vec<VulkanIcd>, gpus: &Vec<Gpu>) -> (r: Vec<String>)
    ensures
        r.deep_view() == fitting_vendors(icds.deep_view(), gpus.deep_view()),
{
    let ghost every = icds.deep_view();
    let ghost all = gpus.deep_view();
    let ghost f = |i: IcdModel|
        if has_vendor(all, i.vendor) {
            Some(vendor_name(i.vendor))
        } else {
            None
        };
    let mut out: Vec<String> = Vec::new();
    let mut i: usize = 0;
    while i < icds.len()
        invariant
            i <= icds.len(),
            every == icds.deep_view(),
            all == gpus.deep_view(),
            f == (|i: IcdModel|
                if has_vendor(all, i.vendor) {
                    Some(vendor_name(i.vendor))
                } else {
                    None
                }),
            out.deep_view() == every.take(i as int).filter_map(f),
        decreases icds.len() - i,
    {
        proof {
            lemma_filter_map_step(every, i as int, f);
            assert(every[i as int] == icds@[i as int].deep_view());
        }
        let ghost before = out.deep_view();
        if owns_vendor(gpus, icds[i].vendor) {
            out.push(String::from_str(icds[i].vendor.name()));
            assert(out.deep_view() =~= before.push(vendor_name(every[i as int].vendor)));
        }
        i = i + 1;
    }
    assert(every.take(i as int) =~= every);
    out
}

fn vulkan_check(system: &System) -> (r: Check)
    ensures
        r.deep_view() == vulkan_status(system.deep_view()),
{
    let icds = &system.observed.icds;
    if icds.len() == 0 {
        return Check::problem(
            "Vulkan",
            "No Vulkan driver is installed. Almost every game from the last five years needs one, and Proton needs it for all of them.",
            install_fix(wanted_packages(&system.missing, Wanted::Vulkan)),
        );
    }
    let broken = find_broken(icds);
    if broken.len() > 0 {
        return Check::problem(
            "Vulkan",
            &cat2(
                &joined(&broken, ", "),
                " points at a driver library that is not on disk. This is a half-removed package, and Vulkan fails with an error that names neither.",
            ),
            Some(
                Fix::Manual(
                    "Reinstall the driver package that owns the manifest, or remove the stale file.",
                ),
            ),
        );
    }
    let vendors = find_vendors(icds, &system.gpus);
    if vendors.len() == 0 {
        return Check::advisory(
            "Vulkan",
            &cat4(
                &decimal_of(icds.len() as u64),
                " Vulkan driver",
                if icds.len() == 1 {
                    " is"
                } else {
                    "s are"
                },
                " installed, but none of them is for the graphics in this machine.",
            ),
            None,
        );
    }
    if !system.observed.vulkaninfo {
        return Check {
            title: String::from_str("Vulkan"),
            detail: cat3(
                "A Vulkan driver is installed for your ",
                &list(&vendors),
                " graphics. vulkaninfo is not installed, so whether it works is not known.",
            ),
            state: State::Unknown,
            fix: None,
        };
    }
    Check::good(
        "Vulkan",
        &cat3("A Vulkan driver is installed for your ", &list(&vendors), " graphics."),
    )
}

/// What the 32-bit check offers to install: the 32-bit packages that the libraries check does not
/// ask for already, if any.
pub open spec fn lib32_fix(s: SystemModel) -> Option<FixModel> {
    install_of(packages_where(s.missing, |r: RequirementModel| is_lib32(r) && !r.essential))
}

/// Whether the 32-bit world exists at all.
pub open spec fn thirty_two_bit_status(s: SystemModel) -> CheckModel {
    if s.has_32bit_stack {
        good_check(
            "32-bit support"@,
            "The 32-bit libraries are in place, which is what Proton, Steam Play and older native games are built against."@,
        )
    } else {
        problem_check(
            "32-bit support"@,
            "There are no 32-bit graphics libraries on this system. Proton, Steam Play, and every older native game need them; without them a game exits immediately with a linker error naming a library nobody has heard of."@,
            lib32_fix(s),
        )
    }
}

/// Whether the 32-bit world exists at all. Deliberately narrow: which drivers are missing their
/// 32-bit half is the libraries check's to say, and the same packages with the same button under two
/// headings would make one problem look like two.
fn thirty_two_bit_check(system: &System) -> (r: Check)
    ensures
        r.deep_view() == thirty_two_bit_status(system.deep_view()),
{
    if system.observed.has_32bit_stack {
        return Check::good(
            "32-bit support",
            "The 32-bit libraries are in place, which is what Proton, Steam Play and older native games are built against.",
        );
    }
    Check::problem(
        "32-bit support",
        "There are no 32-bit graphics libraries on this system. Proton, Steam Play, and every older native game need them; without them a game exits immediately with a linker error naming a library nobody has heard of.",
        install_fix(wanted_packages(&system.missing, Wanted::Lib32)),
    )
}

/// What is to be changed of some settings, a line each.
pub open spec fn tweak_lines(tweaks: Seq<Tweak>, s: SettingsModel) -> Seq<Seq<char>> {
    tweaks.map_values(|t: Tweak| tweak_title(t) + " — "@ + change_of(t, s))
}

/// Whether the system settings are what large games depend on. A too-low map count is the one that
/// stops a game dead; the rest cost smoothness.
pub open spec fn tweaks_status(s: SystemModel) -> CheckModel {
    let tweaks = needed(s.settings);
    let detail = join(tweak_lines(tweaks, s.settings), "\n"@);
    if tweaks.len() == 0 {
        good_check(
            "System settings"@,
            "The kernel settings that large games depend on are all set."@,
        )
    } else if tweaks.contains(Tweak::MaxMapCount) {
        problem_check("System settings"@, detail, Some(FixModel::ApplyTweaks))
    } else {
        advisory_check("System settings"@, detail, Some(FixModel::ApplyTweaks))
    }
}

fn tweaks_check(system: &System) -> (r: Check)
    ensures
        r.deep_view() == tweaks_status(system.deep_view()),
{
    let settings = &system.observed.settings;
    let tweaks = tweaks_needed(settings);
    if tweaks.len() == 0 {
        return Check::good(
            "System settings",
            "The kernel settings that large games depend on are all set.",
        );
    }
    let ghost s = settings.deep_view();
    let ghost f = |t: Tweak| tweak_title(t) + " — "@ + change_of(t, s);
    let mut severe: bool = false;
    let mut lines: Vec<String> = Vec::new();
    let mut i: usize = 0;
    while i < tweaks.len()
        invariant
            i <= tweaks.len(),
            s == settings.deep_view(),
            f == (|t: Tweak| tweak_title(t) + " — "@ + change_of(t, s)),
            severe == tweaks@.take(i as int).contains(Tweak::MaxMapCount),
            lines.deep_view() == tweaks@.take(i as int).map_values(f),
        decreases tweaks.len() - i,
    {
        let ghost before = lines.deep_view();
        let ghost sofar = tweaks@.take(i as int);
        let ghost next = tweaks@.take(i + 1);
        assert(next =~= sofar.push(tweaks@[i as int]));
        let tweak = tweaks[i];
        proof {
            if sofar.contains(Tweak::MaxMapCount) {
                let k = choose|k: int| 0 <= k < sofar.len() && sofar[k] == Tweak::MaxMapCount;
                assert(next[k] == Tweak::MaxMapCount);
            }
            if tweak == Tweak::MaxMapCount {
                assert(next[i as int] == Tweak::MaxMapCount);
            }
        }
        if tweak == Tweak::MaxMapCount {
            severe = true;
        }
        lines.push(cat3(tweak.title(), " — ", &tweak.change_text(settings)));
        assert(lines.deep_view() =~= before.push(f(tweak)));
        i = i + 1;
        assert(lines.deep_view() =~= next.map_values(f));
    }
    assert(tweaks@.take(i as int) =~= tweaks@);
    let detail = joined(&lines, "\n");
    if severe {
        Check::problem("System settings", &detail, Some(Fix::ApplyTweaks))
    } else {
        Check::advisory("System settings", &detail, Some(Fix::ApplyTweaks))
    }
}

/// Whether a launcher is installed.
pub open spec fn launchers_status(s: SystemModel) -> CheckModel {
    if s.steam_installed {
        good_check(
            "Game launchers"@,
            if s.games == 0 {
                "Steam is installed. No games yet."@
            } else if s.games == 1 {
                "Steam is installed, with 1 game in the library."@
            } else {
                "Steam is installed, with "@ + decimal(s.games as int) + " games in the library."@
            },
        )
    } else if s.packages.contains("lutris"@) || s.packages.contains("heroic-games-launcher"@) {
        good_check("Game launchers"@, "A game launcher is installed."@)
    } else {
        advisory_check(
            "Game launchers"@,
            "No game launcher is installed. Steam brings Proton with it, which is what runs Windows games on Linux."@,
            Some(FixModel::Install(seq!["steam"@])),
        )
    }
}

fn steam_check(system: &System) -> (r: Check)
    ensures
        r.deep_view() == launchers_status(system.deep_view()),
{
    if system.observed.steam_installed {
        let count: u64 = system.observed.games;
        let detail: String = if count == 0 {
            String::from_str("Steam is installed. No games yet.")
        } else if count == 1 {
            String::from_str("Steam is installed, with 1 game in the library.")
        } else {
            cat3("Steam is installed, with ", &decimal_of(count), " games in the library.")
        };
        return Check::good("Game launchers", &detail);
    }
    if system.has("lutris") || system.has("heroic-games-launcher") {
        return Check::good("Game launchers", "A game launcher is installed.");
    }
    let names = vec![String::from_str("steam")];
    assert(names.deep_view() =~= seq!["steam"@]);
    Check::advisory(
        "Game launchers",
        "No game launcher is installed. Steam brings Proton with it, which is what runs Windows games on Linux.",
        Some(Fix::Install(names)),
    )
}

/// The performance helpers that are not installed.
pub open spec fn missing_helpers(packages: Set<Seq<char>>) -> Seq<Seq<char>> {
    (if packages.contains("gamemode"@) {
        Seq::empty()
    } else {
        seq!["gamemode"@]
    }) + (if packages.contains("mangohud"@) {
        Seq::empty()
    } else {
        seq!["mangohud"@]
    })
}

/// Whether the performance helpers are installed.
pub open spec fn helpers_status(s: SystemModel) -> CheckModel {
    let missing = missing_helpers(s.packages);
    if missing.len() == 0 {
        good_check(
            "Performance helpers"@,
            "GameMode and MangoHud are installed, so games can ask for performance mode and show their own frame rate."@,
        )
    } else {
        advisory_check(
            "Performance helpers"@,
            "GameMode switches the CPU to performance while a game runs; MangoHud shows frame rate and temperatures inside the game. Neither is required."@,
            Some(FixModel::Install(missing)),
        )
    }
}

fn extras_check(system: &System) -> (r: Check)
    ensures
        r.deep_view() == helpers_status(system.deep_view()),
{
    let mut missing: Vec<String> = Vec::new();
    if !system.has("gamemode") {
        missing.push(String::from_str("gamemode"));
    }
    if !system.has("mangohud") {
        missing.push(String::from_str("mangohud"));
    }
    assert(missing.deep_view() =~= missing_helpers(system.packages@));
    if missing.len() == 0 {
        return Check::good(
            "Performance helpers",
            "GameMode and MangoHud are installed, so games can ask for performance mode and show their own frame rate.",
        );
    }
    Check::advisory(
        "Performance helpers",
        "GameMode switches the CPU to performance while a game runs; MangoHud shows frame rate and temperatures inside the game. Neither is required.",
        Some(Fix::Install(missing)),
    )
}

// ---------------------------------------------------------------------------
// Wording
// ---------------------------------------------------------------------------

/// A list as part of a sentence.
pub open spec fn sentence(items: Seq<Seq<char>>) -> Seq<char> {
    if items.len() == 0 {
        ""@
    } else if items.len() == 1 {
        items[0]
    } else if items.len() == 2 {
        items[0] + " and "@ + items[1]
    } else {
        join(items.drop_last(), ", "@) + ", and "@ + items.last()
    }
}

/// A list of strings as part of a sentence.
pub fn list(items: &Vec<String>) -> (r: String)
    ensures
        r@ == sentence(items.deep_view()),
{
    let n: usize = items.len();
    let ghost every = items.deep_view();
    if n == 0 {
        return String::from_str("");
    }
    assert(every[0] == items@[0]@);
    assert(every.last() == items@[n - 1]@);
    if n == 1 {
        return items[0].clone();
    }
    if n == 2 {
        return cat3(&items[0], " and ", &items[1]);
    }
    let mut rest = copied_strings(items);
    let ghost whole = rest.deep_view();
    let ghost raw = rest@;
    rest.truncate(n - 1);
    assert(rest.deep_view() =~= every.drop_last()) by {
        assert forall|i: int| 0 <= i < n - 1 implies rest.deep_view()[i] == every.drop_last()[i] by {
            assert(rest@[i] == raw[i]);
            assert(whole[i] == raw[i]@);
        }
    }
    cat3(&joined(&rest, ", "), ", and ", &items[n - 1])
}

/// The texts of borrowed strings.
pub open spec fn str_texts(items: Seq<&str>) -> Seq<Seq<char>> {
    Seq::new(items.len(), |i: int| items[i]@)
}

/// A list as part of a sentence.
pub fn list_str(items: &[&str]) -> (r: String)
    ensures
        r@ == sentence(str_texts(items@)),
{
    let ghost every = str_texts(items@);
    let mut owned: Vec<String> = Vec::new();
    let mut i: usize = 0;
    while i < items.len()
        invariant
            i <= items.len(),
            every == str_texts(items@),
            owned.deep_view() == every.take(i as int),
        decreases items.len() - i,
    {
        let ghost before = owned.deep_view();
        owned.push(String::from_str(items[i]));
        assert(owned.deep_view() =~= before.push(every[i as int]));
        i = i + 1;
        assert(owned.deep_view() =~= every.take(i as int));
    }
    assert(every.take(i as int) =~= every);
    list(&owned)
}

// ---------------------------------------------------------------------------
// Laws
// ---------------------------------------------------------------------------

/// The card worth playing on is one of the cards.
pub proof fn the_playing_card_is_one_of_them(gpus: Seq<GpuModel>)
    requires
        gpus.len() > 0,
    ensures
        playing_card(gpus) is Some,
        exists|k: int| 0 <= k < gpus.len() && gpus[k] == playing_card(gpus)->0,
{
    if !no_discrete(gpus) {
        crate::gpu::some_card_is_best(gpus);
        let k = choose|k: int| best_discrete(gpus, k, gpus.len() as int);
        assert(gpus[k] == playing_card(gpus)->0);
    } else {
        assert(gpus[0] == playing_card(gpus)->0);
    }
}

/// Gathered fixes hold at most one of each kind, in the order install, build, apply, and never ask
/// a person to do something by hand.
pub proof fn one_fix_of_each_kind(checks: Seq<CheckModel>, i: int, j: int)
    requires
        0 <= i <= j < gathered(checks).len(),
    ensures
        gathered(checks).len() <= 3,
        !(gathered(checks)[i] is Manual),
        i < j ==> gathered(checks)[i] is Install || gathered(checks)[i] is BuildModules,
        i < j ==> gathered(checks)[j] is BuildModules || gathered(checks)[j] is ApplyTweaks,
        i < j ==> !(gathered(checks)[i] is BuildModules && gathered(checks)[j] is BuildModules),
{
}

proof fn lemma_package_asked(checks: Seq<CheckModel>, name: Seq<char>)
    ensures
        all_packages(checks).contains(name) <==> exists|k: int|
            0 <= k < checks.len() && packages_of((#[trigger] checks[k]).fix).contains(name),
    decreases checks.len(),
{
    if checks.len() > 0 {
        let init = checks.drop_last();
        lemma_package_asked(init, name);
        let a = all_packages(init);
        let b = packages_of(checks.last().fix);
        if all_packages(checks).contains(name) {
            let m = choose|m: int| 0 <= m < (a + b).len() && (a + b)[m] == name;
            if m < a.len() {
                assert(a[m] == name);
                assert(a.contains(name));
                let k = choose|k: int|
                    0 <= k < init.len() && packages_of((#[trigger] init[k]).fix).contains(name);
                assert(packages_of(checks[k].fix).contains(name));
            } else {
                assert(b[m - a.len()] == name);
                assert(packages_of(checks[checks.len() - 1].fix).contains(name));
            }
        }
        if exists|k: int|
            0 <= k < checks.len() && packages_of((#[trigger] checks[k]).fix).contains(name) {
            let k = choose|k: int|
                0 <= k < checks.len() && packages_of((#[trigger] checks[k]).fix).contains(name);
            if k < init.len() {
                assert(packages_of(init[k].fix).contains(name));
                let m = choose|m: int| 0 <= m < a.len() && a[m] == name;
                assert((a + b)[m] == name);
            } else {
                let m = choose|m: int| 0 <= m < b.len() && b[m] == name;
                assert((a + b)[a.len() + m] == name);
            }
        }
    }
}

/// The one install transaction holds each package that a check asks for, each once, and no other.
pub proof fn the_install_holds_what_was_asked_for(checks: Seq<CheckModel>, name: Seq<char>)
    ensures
        distinct(all_packages(checks)).no_duplicates(),
        distinct(all_packages(checks)).contains(name) <==> exists|k: int|
            0 <= k < checks.len() && packages_of((#[trigger] checks[k]).fix).contains(name),
{
    lemma_distinct(all_packages(checks));
    lemma_package_asked(checks, name);
}

/// Where no check has a fix there is nothing to do.
pub proof fn nothing_to_fix(checks: Seq<CheckModel>)
    requires
        forall|i: int|
            0 <= i < checks.len() ==> (#[trigger] checks[i]).fix is None || checks[i].fix->0 is Manual,
    ensures
        gathered(checks).len() == 0,
{
    lemma_no_packages(checks);
    if wants_tweaks(checks) {
        let k = choose|k: int|
            0 <= k < checks.len() && (#[trigger] checks[k]).fix == Some(FixModel::ApplyTweaks);
        assert(checks[k].fix->0 is Manual);
    }
}

proof fn lemma_no_packages(checks: Seq<CheckModel>)
    requires
        forall|i: int|
            0 <= i < checks.len() ==> (#[trigger] checks[i]).fix is None || checks[i].fix->0 is Manual,
    ensures
        all_packages(checks).len() == 0,
        all_kernels(checks).len() == 0,
    decreases checks.len(),
{
    if checks.len() > 0 {
        let init = checks.drop_last();
        assert forall|i: int| 0 <= i < init.len() implies (#[trigger] init[i]).fix is None
            || init[i].fix->0 is Manual by {
            assert(checks[i].fix is None || checks[i].fix->0 is Manual);
        }
        lemma_no_packages(init);
        assert(checks[checks.len() - 1].fix is None || checks[checks.len() - 1].fix->0 is Manual);
    }
}

/// One problem decides the headline, whatever else is in the list.
pub proof fn one_problem_decides(checks: Seq<CheckModel>, i: int)
    requires
        0 <= i < checks.len(),
        checks[i].state == State::Problem,
    ensures
        overall(checks) == State::Problem,
{
}

/// No more checks are clear than say anything, and no more say anything than there are.
pub proof fn the_score_is_a_part(checks: Seq<CheckModel>)
    ensures
        0 <= score_of(checks).0 <= score_of(checks).1 <= checks.len(),
    decreases checks.len(),
{
    reveal(Seq::filter);
    if checks.len() > 0 {
        the_score_is_a_part(checks.drop_last());
    }
}

/// A check that found nothing to do offers no fix, and one that could not tell offers none either.
pub proof fn good_checks_need_no_fix(s: SystemModel, i: int)
    requires
        0 <= i < checklist(s).len(),
        checklist(s)[i].state == State::Good || checklist(s)[i].state == State::Unknown,
    ensures
        checklist(s)[i].fix is None,
{
}

/// No check offers to do nothing: an install names a package, and a build a kernel.
pub proof fn every_offer_does_something(s: SystemModel, i: int)
    requires
        0 <= i < checklist(s).len(),
    ensures
        match checklist(s)[i].fix {
            Some(FixModel::Install(names)) => names.len() > 0,
            Some(FixModel::BuildModules(kernels)) => kernels.len() > 0,
            _ => true,
        },
{
}

proof fn lemma_packages_where(
    missing: Seq<RequirementModel>,
    p: spec_fn(RequirementModel) -> bool,
    name: Seq<char>,
)
    ensures
        packages_where(missing, p).contains(name) <==> exists|k: int|
            0 <= k < missing.len() && p(#[trigger] missing[k]) && missing[k].package == name,
    decreases missing.len(),
{
    let f = |r: RequirementModel|
        if p(r) {
            Some(r.package)
        } else {
            None
        };
    let all = packages_where(missing, p);
    if missing.len() == 0 {
        reveal(Seq::filter_map);
        assert(all =~= Seq::empty());
    } else {
        let n = missing.len() - 1;
        let init = missing.drop_last();
        let before = packages_where(init, p);
        lemma_filter_map_step(missing, n as int, f);
        assert(missing.take(n as int) =~= init);
        assert(missing.take(n + 1) =~= missing);
        lemma_packages_where(init, p, name);
        if all.contains(name) {
            let m = choose|m: int| 0 <= m < all.len() && all[m] == name;
            if m < before.len() {
                assert(before[m] == name);
                let k = choose|k: int|
                    0 <= k < init.len() && p(#[trigger] init[k]) && init[k].package == name;
                assert(p(missing[k]));
            } else {
                assert(p(missing[n as int]));
            }
        }
        if exists|k: int|
            0 <= k < missing.len() && p(#[trigger] missing[k]) && missing[k].package == name {
            let k = choose|k: int|
                0 <= k < missing.len() && p(#[trigger] missing[k]) && missing[k].package == name;
            if k < n {
                assert(p(init[k]));
                let m = choose|m: int| 0 <= m < before.len() && before[m] == name;
                assert(all[m] == name);
            } else {
                assert(all[all.len() - 1] == name);
            }
        }
    }
}

/// The driver check and the libraries check never offer to install the same thing twice, and
/// between them they offer everything that is missing and essential.
pub proof fn the_driver_is_offered_once(s: SystemModel, name: Seq<char>)
    ensures
        !(packages_of(driver_status(s).fix).contains(name) && packages_of(
            libraries_status(s).fix,
        ).contains(name)),
        packages_where(s.missing, |r: RequirementModel| r.essential).contains(name)
            ==> packages_of(driver_status(s).fix).contains(name) || packages_of(
            libraries_status(s).fix,
        ).contains(name),
{
    let driver = |r: RequirementModel| is_driver(r);
    let essential = |r: RequirementModel| r.essential;
    let library = |r: RequirementModel| r.essential && !is_driver(r);
    lemma_packages_where(s.missing, driver, name);
    lemma_packages_where(s.missing, essential, name);
    lemma_packages_where(s.missing, library, name);
    if packages_where(s.missing, driver).contains(name) && packages_where(
        s.missing,
        library,
    ).contains(name) {
        let a = choose|k: int|
            0 <= k < s.missing.len() && driver(#[trigger] s.missing[k]) && s.missing[k].package
                == name;
        let b = choose|k: int|
            0 <= k < s.missing.len() && library(#[trigger] s.missing[k]) && s.missing[k].package
                == name;
        assert(is_driver(s.missing[a]) == is_driver(s.missing[b]));
    }
    if packages_where(s.missing, essential).contains(name) {
        let k = choose|k: int|
            0 <= k < s.missing.len() && essential(#[trigger] s.missing[k]) && s.missing[k].package
                == name;
        if is_driver(s.missing[k]) {
            assert(driver(s.missing[k]));
        } else {
            assert(library(s.missing[k]));
        }
    }
}

/// What the libraries check reports is not offered again under the 32-bit heading, where no package
/// is asked for twice.
pub proof fn the_32_bit_half_is_offered_once(s: SystemModel, name: Seq<char>)
    requires
        forall|i: int, j: int|
            0 <= i < s.missing.len() && 0 <= j < s.missing.len() && i != j ==> (
            #[trigger] s.missing[i]).package != (#[trigger] s.missing[j]).package,
    ensures
        !(packages_where(s.missing, |r: RequirementModel| r.essential).contains(name)
            && packages_of(thirty_two_bit_status(s).fix).contains(name)),
{
    let essential = |r: RequirementModel| r.essential;
    let extra = |r: RequirementModel| is_lib32(r) && !r.essential;
    lemma_packages_where(s.missing, essential, name);
    lemma_packages_where(s.missing, extra, name);
    if packages_where(s.missing, essential).contains(name) && packages_where(
        s.missing,
        extra,
    ).contains(name) {
        let a = choose|k: int|
            0 <= k < s.missing.len() && essential(#[trigger] s.missing[k]) && s.missing[k].package
                == name;
        let b = choose|k: int|
            0 <= k < s.missing.len() && extra(#[trigger] s.missing[k]) && s.missing[k].package
                == name;
        assert(s.missing[a].essential != s.missing[b].essential);
    }
}

/// The settings check stands sixth in the list. A memory-mapping limit below what games are tested
/// against, or one that could not be read, stops a game dead: the check is a problem, and so is the
/// list. Any other setting costs smoothness only: the check is an advisory. Where all are good it is
/// good.
pub proof fn a_low_map_count_stops_a_game(s: SystemModel)
    ensures
        !(s.settings.max_map_count is Some && u64_of(trim(s.settings.max_map_count->0)) is Some
            && u64_of(trim(s.settings.max_map_count->0))->0 >= 2_147_483_642) ==> checklist(s)[5].state
            == State::Problem && overall(checklist(s)) == State::Problem,
        (s.settings.max_map_count is Some && u64_of(trim(s.settings.max_map_count->0)) is Some
            && u64_of(trim(s.settings.max_map_count->0))->0 >= 2_147_483_642) ==> (checklist(s)[5].state
            == State::Good <==> {
            &&& s.settings.split_lock_mitigate is Some && u64_of(
                trim(s.settings.split_lock_mitigate->0),
            ) == Some(0u64)
            &&& s.settings.swappiness is Some && u64_of(trim(s.settings.swappiness->0)) is Some
                && u64_of(trim(s.settings.swappiness->0))->0 <= 10
            &&& s.settings.limits_file || (file_limit(s.settings.limits) is Some && file_limit(
                s.settings.limits,
            )->0 >= 524_288)
        }),
        (s.settings.max_map_count is Some && u64_of(trim(s.settings.max_map_count->0)) is Some
            && u64_of(trim(s.settings.max_map_count->0))->0 >= 2_147_483_642) ==> checklist(s)[5].state
            == State::Good || checklist(s)[5].state == State::Advisory,
        checklist(s)[5].state != State::Good ==> checklist(s)[5].fix == Some(FixModel::ApplyTweaks),
        checklist(s)[5].title == "System settings"@,
{
    let tweaks = needed(s.settings);
    crate::tune::settings_are_asked_for_until_they_are_good(s.settings);
    if tweaks.len() > 0 {
        assert(tweaks.contains(tweaks[0]));
    }
    if tweaks.contains(Tweak::MaxMapCount) {
        one_problem_decides(checklist(s), 5);
    }
}

/// Which settings are asked for decides the state of the settings check, and with it the headline:
/// whatever else the machine is, games will not run where the memory mappings are among them.
pub proof fn the_needed_settings_decide(s: SystemModel)
    ensures
        needed(s.settings).contains(Tweak::MaxMapCount) ==> checklist(s)[5].state == State::Problem
            && overall(checklist(s)) == State::Problem && headline_for(overall(checklist(s)))
            == "Games will not run properly yet"@,
        needed(s.settings).len() > 0 && !needed(s.settings).contains(Tweak::MaxMapCount) ==> checklist(
            s,
        )[5].state == State::Advisory,
        needed(s.settings).len() == 0 ==> checklist(s)[5].state == State::Good,
{
    if needed(s.settings).contains(Tweak::MaxMapCount) {
        one_problem_decides(checklist(s), 5);
    }
}

/// The driver check stands first. Without a card nothing can be told; a card that nothing drives, or
/// that Nouveau does, is a problem; any other driver is good.
pub proof fn a_card_needs_a_driver_that_plays(s: SystemModel)
    ensures
        s.gpus.len() == 0 ==> checklist(s)[0].state == State::Unknown,
        s.gpus.len() > 0 && (playing_card(s.gpus)->0.driver is Unbound || playing_card(
            s.gpus,
        )->0.driver is Nouveau) ==> checklist(s)[0].state == State::Problem,
        s.gpus.len() > 0 && !(playing_card(s.gpus)->0.driver is Unbound) && !(playing_card(
            s.gpus,
        )->0.driver is Nouveau) ==> checklist(s)[0].state == State::Good,
{
    if s.gpus.len() > 0 {
        the_playing_card_is_one_of_them(s.gpus);
    }
}

/// Where the driver check is a problem it offers the missing driver packages, which are those whose
/// names speak of NVIDIA or of dkms, and no others.
pub proof fn the_missing_driver_is_offered(s: SystemModel, name: Seq<char>)
    requires
        checklist(s)[0].state == State::Problem,
    ensures
        (checklist(s)[0].fix matches Some(FixModel::Install(names)) && names.contains(name)) <==> (
        contains(name, "nvidia"@) || contains(name, "dkms"@)) && exists|k: int|
            0 <= k < s.missing.len() && (#[trigger] s.missing[k]).package == name,
{
    let p = |r: RequirementModel| is_driver(r);
    lemma_packages_where(s.missing, p, name);
    let names = packages_where(s.missing, p);
    if names.contains(name) {
        let k = choose|k: int|
            0 <= k < s.missing.len() && p(#[trigger] s.missing[k]) && s.missing[k].package == name;
        assert(s.missing[k].package == name);
    }
    if (contains(name, "nvidia"@) || contains(name, "dkms"@)) && exists|k: int|
        0 <= k < s.missing.len() && (#[trigger] s.missing[k]).package == name {
        let k = choose|k: int| 0 <= k < s.missing.len() && (#[trigger] s.missing[k]).package == name;
        assert(p(s.missing[k]));
    }
}

/// The libraries check stands second, and is a problem exactly where something essential is missing;
/// what it lists is each of those, with its reason, a line each.
pub proof fn missing_libraries_are_a_problem(s: SystemModel)
    ensures
        checklist(s)[1].state == State::Problem <==> exists|k: int|
            0 <= k < s.missing.len() && (#[trigger] s.missing[k]).essential,
        checklist(s)[1].state == State::Problem || checklist(s)[1].state == State::Good,
        forall|k: int|
            0 <= k < s.missing.len() && (#[trigger] s.missing[k]).essential ==> essential_lines(
                s.missing,
            ).contains(s.missing[k].package + " — "@ + s.missing[k].reason),
        checklist(s)[1].state == State::Problem ==> checklist(s)[1].detail == join(
            essential_lines(s.missing),
            "\n"@,
        ),
{
    let p = |r: RequirementModel| r.essential;
    let f = |r: RequirementModel|
        if r.essential {
            Some(r.package + " — "@ + r.reason)
        } else {
            None
        };
    let names = packages_where(s.missing, p);
    if names.len() > 0 {
        assert(names.contains(names[0]));
        lemma_packages_where(s.missing, p, names[0]);
    }
    assert forall|k: int| 0 <= k < s.missing.len() && (#[trigger] s.missing[k]).essential implies names.len()
        > 0 && essential_lines(s.missing).contains(
        s.missing[k].package + " — "@ + s.missing[k].reason,
    ) by {
        lemma_packages_where(s.missing, p, s.missing[k].package);
        assert(p(s.missing[k]));
        assert(names.contains(s.missing[k].package));
        crate::lists::lemma_picked(
            s.missing,
            f,
            s.missing[k].package + " — "@ + s.missing[k].reason,
        );
        assert(f(s.missing[k]) == Some(s.missing[k].package + " — "@ + s.missing[k].reason));
    }
}

/// The modules check stands third, and is a problem exactly where dkms is there and some kernel lacks a
/// module that dkms knows; what it offers is to build for just those kernels.
pub proof fn a_kernel_without_its_module_is_a_problem(s: SystemModel, release: Seq<char>)
    ensures
        checklist(s)[2].state == State::Problem <==> s.dkms_available && missing_kernels(
            s.dkms,
            s.kernels,
        ).len() > 0,
        checklist(s)[2].state == State::Problem || checklist(s)[2].state == State::Good,
        checklist(s)[2].state == State::Problem ==> checklist(s)[2].fix == Some(
            FixModel::BuildModules(missing_kernels(s.dkms, s.kernels)),
        ),
{
    if s.dkms.len() == 0 {
        assert(s.dkms =~= Seq::empty());
        crate::drivers::no_modules_nothing_to_rebuild(s.kernels);
    }
}

/// The Vulkan check stands fourth. No driver at all is a problem, and so is a manifest whose library is
/// gone; drivers of which none is for the machine's cards are an advisory; a driver that fits is good
/// where it was seen to work, and otherwise unknown.
pub proof fn vulkan_needs_a_driver_that_fits(s: SystemModel)
    ensures
        checklist(s)[3].state == State::Problem <==> s.icds.len() == 0 || exists|i: int|
            0 <= i < s.icds.len() && !(#[trigger] s.icds[i]).library_present,
        checklist(s)[3].state == State::Advisory <==> s.icds.len() > 0 && (forall|i: int|
            0 <= i < s.icds.len() ==> (#[trigger] s.icds[i]).library_present && !has_vendor(
                s.gpus,
                s.icds[i].vendor,
            )),
        checklist(s)[3].state == State::Unknown ==> !s.vulkaninfo,
        checklist(s)[3].state == State::Good ==> s.vulkaninfo && exists|i: int|
            0 <= i < s.icds.len() && (#[trigger] s.icds[i]).library_present && has_vendor(
                s.gpus,
                s.icds[i].vendor,
            ),
{
    let f = |i: IcdModel|
        if !i.library_present {
            Some(i.file)
        } else {
            None
        };
    let g = |i: IcdModel|
        if has_vendor(s.gpus, i.vendor) {
            Some(vendor_name(i.vendor))
        } else {
            None
        };
    let broken = s.icds.filter_map(f);
    let vendors = s.icds.filter_map(g);
    if broken.len() > 0 {
        crate::lists::lemma_picked(s.icds, f, broken[0]);
        assert(broken.contains(broken[0]));
    }
    if exists|i: int| 0 <= i < s.icds.len() && !(#[trigger] s.icds[i]).library_present {
        let i = choose|i: int| 0 <= i < s.icds.len() && !(#[trigger] s.icds[i]).library_present;
        crate::lists::lemma_picked(s.icds, f, s.icds[i].file);
        assert(f(s.icds[i]) == Some(s.icds[i].file));
    }
    if vendors.len() > 0 {
        crate::lists::lemma_picked(s.icds, g, vendors[0]);
        assert(vendors.contains(vendors[0]));
        let i = choose|i: int| 0 <= i < s.icds.len() && g(#[trigger] s.icds[i]) == Some(vendors[0]);
        assert(has_vendor(s.gpus, s.icds[i].vendor));
    }
    assert forall|i: int| 0 <= i < s.icds.len() && has_vendor(s.gpus, (#[trigger] s.icds[i]).vendor) implies vendors.len()
        > 0 by {
        crate::lists::lemma_picked(s.icds, g, vendor_name(s.icds[i].vendor));
        assert(g(s.icds[i]) == Some(vendor_name(s.icds[i].vendor)));
    }
}

/// The 32-bit check stands fifth, and goes by whether the 32-bit libraries are there at all.
pub proof fn no_32_bit_world_is_a_problem(s: SystemModel)
    ensures
        checklist(s)[4].state == (if s.has_32bit_stack {
            State::Good
        } else {
            State::Problem
        }),
        checklist(s)[4].title == "32-bit support"@,
{
}

/// The last two checks never stop a game. A launcher is one of Steam, Lutris and Heroic, and Steam is
/// offered where there is none; GameMode and MangoHud are offered where they are missing, each by its
/// own name.
pub proof fn launchers_and_helpers_are_optional(s: SystemModel)
    ensures
        checklist(s)[6].state == (if s.steam_installed || s.packages.contains("lutris"@)
            || s.packages.contains("heroic-games-launcher"@) {
            State::Good
        } else {
            State::Advisory
        }),
        checklist(s)[6].state == State::Advisory ==> checklist(s)[6].fix == Some(
            FixModel::Install(seq!["steam"@]),
        ),
        checklist(s)[7].state == (if s.packages.contains("gamemode"@) && s.packages.contains("mangohud"@) {
            State::Good
        } else {
            State::Advisory
        }),
        !s.packages.contains("gamemode"@) && s.packages.contains("mangohud"@) ==> checklist(s)[7].fix
            == Some(FixModel::Install(seq!["gamemode"@])),
        s.packages.contains("gamemode"@) && !s.packages.contains("mangohud"@) ==> checklist(s)[7].fix
            == Some(FixModel::Install(seq!["mangohud"@])),
        !s.packages.contains("gamemode"@) && !s.packages.contains("mangohud"@) ==> checklist(s)[7].fix
            == Some(FixModel::Install(seq!["gamemode"@, "mangohud"@])),
        checklist(s).len() == 8,
{
    let missing = missing_helpers(s.packages);
    assert(!s.packages.contains("gamemode"@) && s.packages.contains("mangohud"@) ==> missing =~= seq![
        "gamemode"@,
    ]);
    assert(s.packages.contains("gamemode"@) && !s.packages.contains("mangohud"@) ==> missing =~= seq![
        "mangohud"@,
    ]);
    assert(!s.packages.contains("gamemode"@) && !s.packages.contains("mangohud"@) ==> missing =~= seq![
        "gamemode"@,
        "mangohud"@,
    ]);
}

/// The headline says that games will not run exactly where some check found a problem; where none did,
/// the machine is ready, and what is under the headline says whether anything optional is left.
pub proof fn the_headline_follows_the_list(checks: Seq<CheckModel>)
    ensures
        (exists|i: int| 0 <= i < checks.len() && (#[trigger] checks[i]).state == State::Problem)
            ==> headline_for(overall(checks)) == "Games will not run properly yet"@ && overall(checks)
            == State::Problem,
        (forall|i: int| 0 <= i < checks.len() ==> (#[trigger] checks[i]).state != State::Problem)
            ==> headline_for(overall(checks)) == "Ready to play"@ && overall(checks) != State::Problem,
        (forall|i: int| 0 <= i < checks.len() ==> (#[trigger] checks[i]).state != State::Problem) ==> (
        overall(checks) == State::Advisory <==> exists|i: int|
            0 <= i < checks.len() && (#[trigger] checks[i]).state == State::Advisory),
        overall(checks) != State::Unknown,
        blurb_for(State::Problem)
            == "Something below stops a game starting, or makes it far slower than it should be."@,
        blurb_for(State::Advisory)
            == "Everything a game needs is in place. What is left below is optional."@,
        blurb_for(State::Good)
            == "Drivers, libraries and system settings are all where they should be."@,
{
}

/// The score counts each check once: a good one adds to both numbers, one that could not be established
/// to neither, and any other only to how many say anything.
pub proof fn the_score_counts_each_check(checks: Seq<CheckModel>, c: CheckModel)
    ensures
        score_of(checks.push(c)).0 == score_of(checks).0 + (if c.state == State::Good {
            1int
        } else {
            0
        }),
        score_of(checks.push(c)).1 == score_of(checks).1 + (if c.state == State::Unknown {
            0int
        } else {
            1
        }),
        score_of(Seq::empty()) == (0int, 0int),
{
    let p = |c: CheckModel| c.state == State::Good;
    let q = |c: CheckModel| c.state != State::Unknown;
    checks.lemma_filter_push(c, p);
    checks.lemma_filter_push(c, q);
    reveal(Seq::filter);
}

/// Everything that some check offers is done by the gathered fixes, and they do nothing else: what is
/// installed, what is built for, and whether the settings are applied.
pub proof fn gathering_loses_nothing(checks: Seq<CheckModel>, name: Seq<char>)
    ensures
        (exists|i: int|
            0 <= i < gathered(checks).len() && (#[trigger] gathered(checks)[i] matches FixModel::Install(
                names,
            ) && names.contains(name))) <==> (exists|k: int|
            0 <= k < checks.len() && ((#[trigger] checks[k]).fix matches Some(FixModel::Install(names))
                && names.contains(name))),
        (exists|i: int|
            0 <= i < gathered(checks).len() && (
            #[trigger] gathered(checks)[i] matches FixModel::BuildModules(kernels) && kernels.contains(
                name,
            ))) <==> (exists|k: int|
            0 <= k < checks.len() && ((#[trigger] checks[k]).fix matches Some(
                FixModel::BuildModules(kernels),
            ) && kernels.contains(name))),
        gathered(checks).contains(FixModel::ApplyTweaks) <==> exists|k: int|
            0 <= k < checks.len() && (#[trigger] checks[k]).fix == Some(FixModel::ApplyTweaks),
{
    let packages = distinct(all_packages(checks));
    let kernels = distinct(all_kernels(checks));
    lemma_distinct(all_packages(checks));
    lemma_distinct(all_kernels(checks));
    lemma_package_asked(checks, name);
    lemma_kernel_asked(checks, name);
    let all = gathered(checks);
    let a = if packages.len() > 0 {
        1int
    } else {
        0
    };
    let b = if kernels.len() > 0 {
        1int
    } else {
        0
    };
    if packages.len() > 0 {
        assert(all[0] == FixModel::Install(packages));
    }
    if kernels.len() > 0 {
        assert(all[a] == FixModel::BuildModules(kernels));
    }
    if wants_tweaks(checks) {
        assert(all[a + b] == FixModel::ApplyTweaks);
    }
    if exists|k: int|
        0 <= k < checks.len() && ((#[trigger] checks[k]).fix matches Some(FixModel::Install(names))
            && names.contains(name)) {
        let k = choose|k: int|
            0 <= k < checks.len() && ((#[trigger] checks[k]).fix matches Some(FixModel::Install(names))
                && names.contains(name));
        assert(packages_of(checks[k].fix).contains(name));
        assert(packages.contains(name));
    }
    if exists|k: int|
        0 <= k < checks.len() && ((#[trigger] checks[k]).fix matches Some(
            FixModel::BuildModules(kernels),
        ) && kernels.contains(name)) {
        let k = choose|k: int|
            0 <= k < checks.len() && ((#[trigger] checks[k]).fix matches Some(
                FixModel::BuildModules(kernels),
            ) && kernels.contains(name));
        assert(kernels_in(checks[k].fix).contains(name));
        assert(kernels.contains(name));
    }
    if packages.contains(name) {
        let k = choose|k: int|
            0 <= k < checks.len() && packages_of((#[trigger] checks[k]).fix).contains(name);
        assert(checks[k].fix matches Some(FixModel::Install(names)) && names.contains(name));
    }
    if kernels.contains(name) {
        let k = choose|k: int|
            0 <= k < checks.len() && kernels_in((#[trigger] checks[k]).fix).contains(name);
        assert(checks[k].fix matches Some(FixModel::BuildModules(names)) && names.contains(name));
    }
}

proof fn lemma_kernel_asked(checks: Seq<CheckModel>, name: Seq<char>)
    ensures
        all_kernels(checks).contains(name) <==> exists|k: int|
            0 <= k < checks.len() && kernels_in((#[trigger] checks[k]).fix).contains(name),
    decreases checks.len(),
{
    if checks.len() > 0 {
        let init = checks.drop_last();
        lemma_kernel_asked(init, name);
        let before = all_kernels(init);
        let more = kernels_in(checks.last().fix);
        let all = all_kernels(checks);
        if all.contains(name) {
            let m = choose|m: int| 0 <= m < all.len() && all[m] == name;
            if m < before.len() {
                assert(before[m] == name);
                assert(before.contains(name));
                let k = choose|k: int|
                    0 <= k < init.len() && kernels_in((#[trigger] init[k]).fix).contains(name);
                assert(checks[k] == init[k]);
            } else {
                assert(more[m - before.len()] == name);
                assert(kernels_in(checks[checks.len() - 1].fix).contains(name));
            }
        }
        if exists|k: int|
            0 <= k < checks.len() && kernels_in((#[trigger] checks[k]).fix).contains(name) {
            let k = choose|k: int|
                0 <= k < checks.len() && kernels_in((#[trigger] checks[k]).fix).contains(name);
            if k < init.len() {
                assert(init[k] == checks[k]);
                assert(before.contains(name));
                let m = choose|m: int| 0 <= m < before.len() && before[m] == name;
                assert(all[m] == name);
            } else {
                let m = choose|m: int| 0 <= m < more.len() && more[m] == name;
                assert(all[before.len() + m] == name);
            }
        }
    }
}

/// The card worth playing on is a discrete one where there is one, and then none of NVIDIA's or AMD's
/// is passed over for one of Intel's or of another vendor; of equals it is the first. Where every card
/// is built in it is the first of all.
pub proof fn a_game_deserves_the_best_card(gpus: Seq<GpuModel>, k: int)
    requires
        0 <= k < gpus.len(),
    ensures
        playing_card(gpus) is Some,
        !gpus[k].integrated ==> !playing_card(gpus)->0.integrated,
        !gpus[k].integrated && (gpus[k].vendor == Vendor::Nvidia || gpus[k].vendor == Vendor::Amd)
            ==> playing_card(gpus)->0.vendor == Vendor::Nvidia || playing_card(gpus)->0.vendor
            == Vendor::Amd,
        !gpus[k].integrated && gpus[k].vendor == Vendor::Intel ==> playing_card(gpus)->0.vendor
            != Vendor::Other,
        !gpus[k].integrated && (gpus[k].vendor == Vendor::Nvidia || gpus[k].vendor == Vendor::Amd) && (
        forall|j: int| 0 <= j < k ==> (#[trigger] gpus[j]).integrated || (gpus[j].vendor
            != Vendor::Nvidia && gpus[j].vendor != Vendor::Amd)) ==> playing_card(gpus) == Some(gpus[k]),
        (forall|j: int| 0 <= j < gpus.len() ==> (#[trigger] gpus[j]).integrated) ==> playing_card(gpus)
            == Some(gpus[0]),
{
    if !no_discrete(gpus) {
        crate::gpu::some_card_is_best(gpus);
        let b = choose|b: int| best_discrete(gpus, b, gpus.len() as int);
        assert(best_discrete(gpus, b, gpus.len() as int));
        assert(playing_card(gpus) == Some(gpus[b]));
        if !gpus[k].integrated && (gpus[k].vendor == Vendor::Nvidia || gpus[k].vendor == Vendor::Amd)
            && (forall|j: int| 0 <= j < k ==> (#[trigger] gpus[j]).integrated || (gpus[j].vendor
            != Vendor::Nvidia && gpus[j].vendor != Vendor::Amd)) {
            if b < k {
                assert(gpus[b].integrated || (gpus[b].vendor != Vendor::Nvidia && gpus[b].vendor
                    != Vendor::Amd));
            }
            assert(b == k);
        }
    }
}

/// Things are listed as one says them: alone, with an "and" between two, and with commas and an "and"
/// before the last of more.
pub proof fn lists_are_said_as_one_says_them(
    a: Seq<char>,
    b: Seq<char>,
    c: Seq<char>,
    d: Seq<char>,
)
    ensures
        sentence(seq![a]) == a,
        sentence(seq![a, b]) == a + " and "@ + b,
        sentence(seq![a, b, c]) == a + ", "@ + b + ", and "@ + c,
        sentence(seq![a, b, c, d]) == a + ", "@ + b + ", "@ + c + ", and "@ + d,
        sentence(Seq::empty()).len() == 0,
{
    reveal_strlit("");
    reveal_with_fuel(crate::text::join, 4);
    assert(seq![a, b, c].drop_last() =~= seq![a, b]);
    assert(seq![a, b, c, d].drop_last() =~= seq![a, b, c]);
    assert(seq![a, b].drop_last() =~= seq![a]);
}

/// A name is that of a missing package with some property.
pub open spec fn is_missing(
    missing: Seq<RequirementModel>,
    name: Seq<char>,
    p: spec_fn(RequirementModel) -> bool,
) -> bool {
    exists|k: int| 0 <= k < missing.len() && (#[trigger] missing[k]).package == name && p(missing[k])
}

/// Each check offers what it is about and nothing else: the libraries check only what is essential, the
/// Vulkan check, where there is no driver, what belongs to Vulkan by its name, and the 32-bit check, where
/// that world is missing, the 32-bit packages that are not essential.
pub proof fn each_check_offers_what_it_is_about(s: SystemModel, name: Seq<char>)
    ensures
        packages_of(checklist(s)[1].fix).contains(name) ==> is_missing(
            s.missing,
            name,
            |r: RequirementModel| r.essential,
        ),
        checklist(s)[0].state == State::Good ==> (packages_of(checklist(s)[1].fix).contains(name)
            <==> is_missing(s.missing, name, |r: RequirementModel| r.essential)),
        s.icds.len() == 0 ==> (packages_of(checklist(s)[3].fix).contains(name) <==> is_missing(
            s.missing,
            name,
            |r: RequirementModel| contains(r.package, "vulkan"@) || contains(r.package, "nvidia-utils"@),
        )),
        !s.has_32bit_stack ==> (packages_of(checklist(s)[4].fix).contains(name) <==> is_missing(
            s.missing,
            name,
            |r: RequirementModel| "lib32-"@.is_prefix_of(r.package) && !r.essential,
        )),
{
    let essential = |r: RequirementModel| r.essential;
    let library = |r: RequirementModel| r.essential && !is_driver(r);
    let vulkan = |r: RequirementModel| is_vulkan(r);
    let vulkan_named = |r: RequirementModel|
        contains(r.package, "vulkan"@) || contains(r.package, "nvidia-utils"@);
    let lib32 = |r: RequirementModel| is_lib32(r) && !r.essential;
    let lib32_named = |r: RequirementModel| "lib32-"@.is_prefix_of(r.package) && !r.essential;
    lemma_is_missing(s.missing, name, essential, essential);
    lemma_is_missing(s.missing, name, library, library);
    lemma_is_missing(s.missing, name, vulkan, vulkan_named);
    lemma_is_missing(s.missing, name, lib32, lib32_named);
    if is_missing(s.missing, name, library) {
        let k = choose|k: int|
            0 <= k < s.missing.len() && (#[trigger] s.missing[k]).package == name && library(s.missing[k]);
        assert(essential(s.missing[k]));
    }
    if is_missing(s.missing, name, essential) {
        assert(packages_where(s.missing, essential).len() > 0);
    }
}

proof fn lemma_is_missing(
    missing: Seq<RequirementModel>,
    name: Seq<char>,
    p: spec_fn(RequirementModel) -> bool,
    q: spec_fn(RequirementModel) -> bool,
)
    requires
        forall|r: RequirementModel| #[trigger] p(r) == q(r),
    ensures
        packages_of(install_of(packages_where(missing, p))).contains(name) <==> is_missing(
            missing,
            name,
            q,
        ),
        packages_where(missing, p).contains(name) <==> is_missing(missing, name, q),
{
    lemma_packages_where(missing, p, name);
    if packages_where(missing, p).contains(name) {
        let k = choose|k: int|
            0 <= k < missing.len() && p(#[trigger] missing[k]) && missing[k].package == name;
        assert(missing[k].package == name && q(missing[k]));
    }
    if is_missing(missing, name, q) {
        let k = choose|k: int|
            0 <= k < missing.len() && (#[trigger] missing[k]).package == name && q(missing[k]);
        assert(p(missing[k]));
    }
}

/// A module that the running kernel misses is said to be missing now, and one that only another kernel
/// misses is not.
pub proof fn the_running_kernel_is_named(s: SystemModel)
    requires
        checklist(s)[2].state == State::Problem,
    ensures
        (exists|i: int|
            0 <= i < s.kernels.len() && (#[trigger] s.kernels[i]).running && missing_kernels(
                s.dkms,
                s.kernels,
            ).contains(s.kernels[i].release)) ==> checklist(s)[2].detail
            == "The graphics module is not built for "@ + sentence(missing_kernels(s.dkms, s.kernels))
            + ". "@ + "That includes the kernel you are running now."@,
        (forall|i: int|
            0 <= i < s.kernels.len() && (#[trigger] s.kernels[i]).running ==> !missing_kernels(
                s.dkms,
                s.kernels,
            ).contains(s.kernels[i].release)) ==> !includes_running(
            s.kernels,
            missing_kernels(s.dkms, s.kernels),
        ),
        s.dkms_available && s.dkms.len() > 0,
{
}

/// A card of a vendor is found wherever it stands among the cards, and only such a card.
pub proof fn vendors_are_found_among_the_cards(gpus: Seq<GpuModel>, g: GpuModel, v: Vendor)
    ensures
        has_vendor(gpus.push(g), v) <==> has_vendor(gpus, v) || g.vendor == v,
        !has_vendor(Seq::empty(), v),
{
    let all = gpus.push(g);
    assert(all[gpus.len() as int] == g);
    if has_vendor(gpus, v) {
        let i = choose|i: int| 0 <= i < gpus.len() && (#[trigger] gpus[i]).vendor == v;
        assert(all[i].vendor == v);
    }
    if has_vendor(all, v) {
        let i = choose|i: int| 0 <= i < all.len() && (#[trigger] all[i]).vendor == v;
        if i < gpus.len() {
            assert(gpus[i].vendor == v);
        }
    }
}

} // verus!
