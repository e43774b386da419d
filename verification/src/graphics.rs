//! The Graphics page: the cards, the drivers on them, the modules for every kernel, and Vulkan.
use vstd::prelude::*;
use crate::checks::{
    card_to_play_on, copied_strings, has_string, has_vendor, owns_vendor, playing_card, Fix,
    FixModel, State, System, SystemModel,
};
use crate::collections::NameSet;
use crate::drivers::{
    kernels_missing_modules, kernels_of, missing_kernels, modules_of, requirement_models, verdict,
    verdict_of, DkmsModel, DkmsModule, Kernel, KernelModel, Requirement, RequirementModel,
};
use crate::games::default_render_gpu;
use crate::gpu::{
    cards, driver_label, driver_plays, gpu_title, hybrid, id_text, is_hybrid, primary_at,
    vendor_name, vendor_tint, Gpu, GpuModel, IcdModel, Vendor, VulkanIcd,
};
use crate::lists::{lemma_filter_map_step, lemma_filter_step};
use crate::number::{decimal, decimal_of, padded_hex};
use crate::text::{
    cat2, cat3, cat4, cat5, chars_of, contains, equal, holds, join, joined, single,
};
use crate::view::{
    append_item, button, lone_button, one_fix, plain_button, plain_row, row, Button, ButtonModel,
    Item, ItemModel, Press, PressModel, Row, RowModel, Trailing, TrailingModel,
};

verus! {

// ---------------------------------------------------------------------------
// One card
// ---------------------------------------------------------------------------

/// What is shown of one card.
#[derive(Debug, PartialEq, Eq)]
pub struct GpuCard {
    pub tint: &'static str,
    pub title: String,
    pub subtitle: String,
    pub badge: &'static str,
    /// Whether the driver plays games, which is what the badge's colour says.
    pub plays_games: bool,
    pub rows: Vec<Row>,
}

/// What is shown of one card.
#[verifier::ext_equal]
pub struct GpuCardModel {
    pub tint: Seq<char>,
    pub title: Seq<char>,
    pub subtitle: Seq<char>,
    pub badge: Seq<char>,
    pub plays_games: bool,
    pub rows: Seq<RowModel>,
}

impl DeepView for GpuCard {
    type V = GpuCardModel;

    open spec fn deep_view(&self) -> GpuCardModel {
        GpuCardModel {
            tint: self.tint@,
            title: self.title@,
            subtitle: self.subtitle@,
            badge: self.badge@,
            plays_games: self.plays_games,
            rows: self.rows.deep_view(),
        }
    }
}

/// A missing package belongs to the cards of a vendor. The loader belongs to none in particular.
pub open spec fn belongs_to(package: Seq<char>, vendor: Vendor) -> bool {
    match vendor {
        Vendor::Nvidia => contains(package, "nvidia"@),
        Vendor::Amd => contains(package, "radeon"@) || contains(package, "mesa"@),
        Vendor::Intel => contains(package, "intel"@),
        Vendor::Other => false,
    }
}

/// Whether a missing package belongs to a particular card, so that each card's section lists only
/// its own.
pub fn requirement_belongs_to(package: &str, vendor: Vendor) -> (r: bool)
    ensures
        r == belongs_to(package@, vendor),
{
    let chars = chars_of(package);
    match vendor {
        Vendor::Nvidia => holds(&chars, "nvidia"),
        Vendor::Amd => holds(&chars, "radeon") || holds(&chars, "mesa"),
        Vendor::Intel => holds(&chars, "intel"),
        Vendor::Other => false,
    }
}

/// What a machine is missing for the cards of a vendor.
pub open spec fn missing_for(missing: Seq<RequirementModel>, vendor: Vendor) -> Seq<
    RequirementModel,
> {
    missing.filter(|r: RequirementModel| belongs_to(r.package, vendor))
}

fn own_requirements(missing: &Vec<Requirement>, vendor: Vendor) -> (r: Vec<Requirement>)
    ensures
        r.deep_view() == missing_for(missing.deep_view(), vendor),
{
    let ghost every = missing.deep_view();
    let ghost p = |r: RequirementModel| belongs_to(r.package, vendor);
    let mut out: Vec<Requirement> = Vec::new();
    let mut i: usize = 0;
    proof {
        reveal(Seq::filter);
        assert(out.deep_view() =~= every.take(0).filter(p));
    }
    while i < missing.len()
        invariant
            i <= missing.len(),
            every == missing.deep_view(),
            p == (|r: RequirementModel| belongs_to(r.package, vendor)),
            out.deep_view() == every.take(i as int).filter(p),
        decreases missing.len() - i,
    {
        proof {
            lemma_filter_step(every, i as int, p);
            assert(every[i as int] == missing@[i as int].deep_view());
        }
        let ghost before = out.deep_view();
        if requirement_belongs_to(&missing[i].package, vendor) {
            out.push(missing[i].clone());
            assert(out.deep_view() =~= before.push(every[i as int]));
        }
        i = i + 1;
    }
    assert(every.take(i as int) =~= every);
    out
}

/// What part a card plays in its machine.
pub open spec fn role_of(g: GpuModel, count: int) -> Seq<char> {
    if g.integrated {
        "Integrated graphics"@
    } else if count > 1 {
        "Discrete graphics"@
    } else {
        "Graphics"@
    }
}

/// The line under a card's name.
pub open spec fn card_subtitle(g: GpuModel, count: int) -> Seq<char> {
    vendor_name(g.vendor) + " · "@ + role_of(g, count) + " · "@ + id_text(g.vendor_id) + ":"@
        + id_text(g.device_id) + " · module "@ + (match g.module {
        Some(module) => module,
        None => "none"@,
    }) + (match g.card {
        Some(card) => " · "@ + card,
        None => ""@,
    })
}

/// A row with a button that installs one package.
pub open spec fn install_row(r: RequirementModel, state: State, suggested: bool) -> RowModel {
    RowModel {
        state,
        title: r.package,
        detail: r.reason,
        trailing: TrailingModel::Button(
            plain_button(
                "Install"@,
                suggested,
                PressModel::Fixes(seq![FixModel::Install(seq![r.package])]),
            ),
        ),
    }
}

/// A row with a button that installs one package.
pub fn installable(requirement: &Requirement, state: State, suggested: bool) -> (r: Row)
    ensures
        r.deep_view() == install_row(requirement.deep_view(), state, suggested),
{
    let fixes = one_fix(Fix::Install(single(&requirement.package)));
    Row {
        state,
        title: requirement.package.clone(),
        detail: requirement.reason.clone(),
        trailing: Trailing::Button(button("Install", suggested, Press::Fixes(fixes))),
    }
}

/// The row of something that a card needs.
pub open spec fn need_row(r: RequirementModel) -> RowModel {
    install_row(
        r,
        if r.essential {
            State::Problem
        } else {
            State::Advisory
        },
        true,
    )
}

/// The row that says which device a game opens. Its absence is why "the driver is installed" and
/// "the card works" can differ.
pub open spec fn node_row(node: Option<Seq<char>>) -> RowModel {
    match node {
        Some(path) => plain_row(
            State::Good,
            "Render device"@,
            path + " — this is the device a game opens to render on."@,
        ),
        None => plain_row(
            State::Problem,
            "Render device"@,
            "This card has no render device, so nothing can render on it even though it is in the machine."@,
        ),
    }
}

/// The rows of one card: the verdict on it, what it is missing, and its render device.
pub open spec fn card_rows(g: GpuModel, missing: Seq<RequirementModel>) -> Seq<RowModel> {
    let own = missing_for(missing, g.vendor);
    let said = verdict_of(g, own);
    seq![
        plain_row(
            if said.good {
                State::Good
            } else {
                State::Problem
            },
            said.headline,
            said.detail,
        ),
    ] + own.map_values(|r: RequirementModel| need_row(r)) + seq![node_row(g.render_node)]
}

/// What is shown of one card.
pub open spec fn shown_card(g: GpuModel, s: SystemModel) -> GpuCardModel {
    GpuCardModel {
        tint: vendor_tint(g.vendor),
        title: gpu_title(g),
        subtitle: card_subtitle(g, s.gpus.len() as int),
        badge: driver_label(g.driver),
        plays_games: driver_plays(g.driver),
        rows: card_rows(g, s.missing),
    }
}

fn subtitle_of(gpu: &Gpu, count: usize) -> (r: String)
    ensures
        r@ == card_subtitle(gpu.deep_view(), count as int),
{
    let role: &str = if gpu.is_integrated() {
        "Integrated graphics"
    } else if count > 1 {
        "Discrete graphics"
    } else {
        "Graphics"
    };
    let mut out = cat5(
        gpu.vendor.name(),
        " · ",
        role,
        " · ",
        &padded_hex(gpu.vendor_id as u64, 4),
    );
    out.append(":");
    out.append(&padded_hex(gpu.device_id as u64, 4));
    out.append(" · module ");
    match &gpu.module {
        Some(module) => {
            out.append(module);
        },
        None => {
            out.append("none");
        },
    }
    let last: String = match &gpu.card {
        Some(card) => cat2(" · ", card),
        None => String::from_str(""),
    };
    out.append(&last);
    out
}

fn rows_of(gpu: &Gpu, missing: &Vec<Requirement>) -> (r: Vec<Row>)
    ensures
        r.deep_view() == card_rows(gpu.deep_view(), missing.deep_view()),
{
    let own = own_requirements(missing, gpu.vendor);
    let ghost every = own.deep_view();
    assert(requirement_models(own@) =~= every);
    let said = verdict(gpu, &own);
    let mut rows: Vec<Row> = Vec::new();
    rows.push(
        row(
            if said.good {
                State::Good
            } else {
                State::Problem
            },
            &said.headline,
            &said.detail,
        ),
    );
    let ghost first = rows.deep_view();
    let ghost f = |r: RequirementModel| need_row(r);
    let mut i: usize = 0;
    assert(first + every.take(0).map_values(f) =~= first);
    while i < own.len()
        invariant
            i <= own.len(),
            every == own.deep_view(),
            f == (|r: RequirementModel| need_row(r)),
            rows.deep_view() == first + every.take(i as int).map_values(f),
        decreases own.len() - i,
    {
        let ghost before = rows.deep_view();
        assert(every[i as int] == own@[i as int].deep_view());
        let state: State = if own[i].essential {
            State::Problem
        } else {
            State::Advisory
        };
        rows.push(installable(&own[i], state, true));
        assert(rows.deep_view() =~= before.push(f(every[i as int])));
        assert(every.take(i + 1).map_values(f) =~= every.take(i as int).map_values(f).push(
            f(every[i as int]),
        ));
        i = i + 1;
        assert(rows.deep_view() =~= first + every.take(i as int).map_values(f));
    }
    assert(every.take(i as int) =~= every);
    let ghost before = rows.deep_view();
    let last: Row = match &gpu.render_node {
        Some(path) => row(
            State::Good,
            "Render device",
            &cat2(path, " — this is the device a game opens to render on."),
        ),
        None => row(
            State::Problem,
            "Render device",
            "This card has no render device, so nothing can render on it even though it is in the machine.",
        ),
    };
    let ghost end = last.deep_view();
    rows.push(last);
    assert(rows.deep_view() =~= before + seq![end]);
    assert(first =~= card_rows(gpu.deep_view(), missing.deep_view()).take(1));
    assert(rows.deep_view() =~= card_rows(gpu.deep_view(), missing.deep_view()));
    rows
}

/// What is shown of one card.
pub fn gpu_card(system: &System, gpu: &Gpu) -> (r: GpuCard)
    ensures
        r.deep_view() == shown_card(gpu.deep_view(), system.deep_view()),
{
    GpuCard {
        tint: gpu.vendor.tint(),
        title: gpu.title(),
        subtitle: subtitle_of(gpu, system.gpus.len()),
        badge: gpu.driver.label(),
        plays_games: gpu.driver.plays_games(),
        rows: rows_of(gpu, &system.missing),
    }
}

// ---------------------------------------------------------------------------
// Two cards
// ---------------------------------------------------------------------------

/// The name of a card; "unknown" where there is none.
pub open spec fn name_or_unknown(g: Option<GpuModel>) -> Seq<char> {
    match g {
        Some(card) => gpu_title(card),
        None => "unknown"@,
    }
}

/// The card that a game lands on with no options.
pub open spec fn landing_card(gpus: Seq<GpuModel>) -> Option<GpuModel> {
    match primary_at(gpus) {
        Some(i) => Some(gpus[i]),
        None => None,
    }
}

/// The row that says which of two cards a game uses.
pub open spec fn landing_row(gpus: Seq<GpuModel>) -> RowModel {
    let lands = name_or_unknown(landing_card(gpus));
    let fast = name_or_unknown(playing_card(gpus));
    if lands == fast {
        plain_row(
            State::Good,
            "Where a game goes by default"@,
            "A game started with no special options runs on "@ + lands
                + ", which is the faster card. Nothing to do."@,
        )
    } else {
        plain_row(
            State::Advisory,
            "Where a game goes by default"@,
            "A game started with no special options runs on "@ + lands
                + " — the card the desktop is already on. "@ + fast
                + " is the faster one, and a game only uses it when it is told to. This is the single most common reason a game is inexplicably slow on a laptop.\n\nThe Games page has the line to paste into Steam's launch options."@,
        )
    }
}

/// The row that says which of two cards a game uses; none where a machine has no such choice.
pub fn hybrid_row(gpus: &Vec<Gpu>) -> (r: Option<Row>)
    ensures
        r.deep_view() == (if hybrid(gpus.deep_view()) {
            Some(landing_row(gpus.deep_view()))
        } else {
            None
        }),
{
    assert(cards(gpus@) =~= gpus.deep_view());
    if !is_hybrid(gpus) {
        return None;
    }
    let lands: String = match default_render_gpu(gpus) {
        Some(g) => g.title(),
        None => String::from_str("unknown"),
    };
    let fast: String = match card_to_play_on(gpus) {
        Some(g) => g.title(),
        None => String::from_str("unknown"),
    };
    if equal(&lands, &fast) {
        Some(
            row(
                State::Good,
                "Where a game goes by default",
                &cat3(
                    "A game started with no special options runs on ",
                    &lands,
                    ", which is the faster card. Nothing to do.",
                ),
            ),
        )
    } else {
        Some(
            row(
                State::Advisory,
                "Where a game goes by default",
                &cat5(
                    "A game started with no special options runs on ",
                    &lands,
                    " — the card the desktop is already on. ",
                    &fast,
                    " is the faster one, and a game only uses it when it is told to. This is the single most common reason a game is inexplicably slow on a laptop.\n\nThe Games page has the line to paste into Steam's launch options.",
                ),
            ),
        )
    }
}

// ---------------------------------------------------------------------------
// DKMS
// ---------------------------------------------------------------------------

/// The modules that are in place for a kernel, each with its version.
pub open spec fn built_for(modules: Seq<DkmsModel>, release: Seq<char>) -> Seq<Seq<char>> {
    modules.filter_map(
        |m: DkmsModel|
            if m.kernel == release && m.state == "installed"@ {
                Some(m.name + " "@ + m.version)
            } else {
                None
            },
    )
}

fn find_built(modules: &Vec<DkmsModule>, release: &str) -> (r: Vec<String>)
    ensures
        r.deep_view() == built_for(modules.deep_view(), release@),
{
    let ghost every = modules.deep_view();
    let ghost f = |m: DkmsModel|
        if m.kernel == release@ && m.state == "installed"@ {
            Some(m.name + " "@ + m.version)
        } else {
            None
        };
    let mut out: Vec<String> = Vec::new();
    let mut i: usize = 0;
    while i < modules.len()
        invariant
            i <= modules.len(),
            every == modules.deep_view(),
            f == (|m: DkmsModel|
                if m.kernel == release@ && m.state == "installed"@ {
                    Some(m.name + " "@ + m.version)
                } else {
                    None
                }),
            out.deep_view() == every.take(i as int).filter_map(f),
        decreases modules.len() - i,
    {
        proof {
            lemma_filter_map_step(every, i as int, f);
            assert(every[i as int] == modules@[i as int].deep_view());
        }
        let ghost before = out.deep_view();
        if equal(&modules[i].kernel, release) && modules[i].is_installed() {
            out.push(cat3(&modules[i].name, " ", &modules[i].version));
            assert(out.deep_view() =~= before.push(f(every[i as int])->0));
        }
        i = i + 1;
    }
    assert(every.take(i as int) =~= every);
    out
}

/// A button that builds modules for kernels.
pub open spec fn build_button(label: Seq<char>, kernels: Seq<Seq<char>>) -> ButtonModel {
    plain_button(label, true, PressModel::Fixes(seq![FixModel::BuildModules(kernels)]))
}

/// The row of a kernel: what is built for it, and a button where something is missing.
pub open spec fn kernel_row(
    k: KernelModel,
    modules: Seq<DkmsModel>,
    missing: Seq<Seq<char>>,
) -> RowModel {
    let built = built_for(modules, k.release);
    let lacks = missing.contains(k.release);
    RowModel {
        state: if lacks {
            State::Problem
        } else {
            State::Good
        },
        title: if k.running {
            k.release + " (running now)"@
        } else {
            k.release
        },
        detail: if built.len() == 0 {
            "No graphics module is built for this kernel. Booting it would come up with no driver."@
        } else {
            join(built, ", "@) + " built and installed."@
        },
        trailing: if lacks {
            TrailingModel::Button(build_button("Build"@, seq![k.release]))
        } else {
            TrailingModel::Nothing
        },
    }
}

/// The rows of every kernel, and a button for all of them where several miss something.
pub open spec fn dkms_items(s: SystemModel) -> Seq<ItemModel> {
    let missing = missing_kernels(s.dkms, s.kernels);
    if !s.dkms_available {
        seq![
            ItemModel::Row(
                plain_row(
                    State::Good,
                    "No DKMS drivers"@,
                    "Nothing on this system builds its driver with DKMS, so a kernel update cannot leave you without one."@,
                ),
            ),
        ]
    } else if s.dkms.len() == 0 {
        seq![
            ItemModel::Row(
                plain_row(
                    State::Good,
                    "No DKMS drivers registered"@,
                    "dkms is installed but has no modules, so there is nothing that a kernel update could leave behind."@,
                ),
            ),
        ]
    } else {
        s.kernels.map_values(
            |k: KernelModel| ItemModel::Row(kernel_row(k, s.dkms, missing)),
        ) + (if missing.len() > 1 {
            seq![
                ItemModel::Buttons(
                    seq![
                        build_button(
                            "Build for all "@ + decimal(missing.len() as int) + " kernels"@,
                            missing,
                        ),
                    ],
                ),
            ]
        } else {
            Seq::empty()
        })
    }
}

fn row_of_kernel(kernel: &Kernel, modules: &Vec<DkmsModule>, missing: &Vec<String>) -> (r: Row)
    ensures
        r.deep_view() == kernel_row(
            kernel.deep_view(),
            modules.deep_view(),
            missing.deep_view(),
        ),
{
    let built = find_built(modules, &kernel.release);
    let lacks: bool = has_string(missing, &kernel.release);
    let detail: String = if built.len() == 0 {
        String::from_str(
            "No graphics module is built for this kernel. Booting it would come up with no driver.",
        )
    } else {
        cat2(&joined(&built, ", "), " built and installed.")
    };
    let title: String = if kernel.running {
        cat2(&kernel.release, " (running now)")
    } else {
        kernel.release.clone()
    };
    let trailing: Trailing = if lacks {
        let fixes = one_fix(Fix::BuildModules(single(&kernel.release)));
        Trailing::Button(button("Build", true, Press::Fixes(fixes)))
    } else {
        Trailing::Nothing
    };
    Row {
        state: if lacks {
            State::Problem
        } else {
            State::Good
        },
        title,
        detail,
        trailing,
    }
}

fn lone_row(state: State, title: &str, detail: &str) -> (r: Vec<Item>)
    ensures
        r.deep_view() == seq![ItemModel::Row(plain_row(state, title@, detail@))],
{
    let mut items: Vec<Item> = Vec::new();
    items.push(Item::Row(row(state, title, detail)));
    assert(items.deep_view() =~= seq![ItemModel::Row(plain_row(state, title@, detail@))]);
    items
}

/// The rows of every kernel, and a button for all of them where several miss something.
pub fn dkms_section(system: &System) -> (r: Vec<Item>)
    ensures
        r.deep_view() == dkms_items(system.deep_view()),
{
    let ghost s = system.deep_view();
    assert(modules_of(system.dkms@) =~= s.dkms);
    assert(kernels_of(system.kernels@) =~= s.kernels);
    if !system.observed.dkms_available {
        return lone_row(
            State::Good,
            "No DKMS drivers",
            "Nothing on this system builds its driver with DKMS, so a kernel update cannot leave you without one.",
        );
    }
    if system.dkms.len() == 0 {
        return lone_row(
            State::Good,
            "No DKMS drivers registered",
            "dkms is installed but has no modules, so there is nothing that a kernel update could leave behind.",
        );
    }
    let missing = kernels_missing_modules(&system.dkms, &system.kernels);
    let ghost lacking = missing.deep_view();
    let ghost every = s.kernels;
    let ghost f = |k: KernelModel| ItemModel::Row(kernel_row(k, s.dkms, lacking));
    let mut items: Vec<Item> = Vec::new();
    let mut i: usize = 0;
    assert(items.deep_view() =~= every.take(0).map_values(f));
    while i < system.kernels.len()
        invariant
            i <= system.kernels.len(),
            s == system.deep_view(),
            every == s.kernels,
            lacking == missing.deep_view(),
            f == (|k: KernelModel| ItemModel::Row(kernel_row(k, s.dkms, lacking))),
            items.deep_view() == every.take(i as int).map_values(f),
        decreases system.kernels.len() - i,
    {
        let ghost before = items.deep_view();
        assert(every[i as int] == system.kernels@[i as int].deep_view());
        append_item(
            &mut items,
            Item::Row(row_of_kernel(&system.kernels[i], &system.dkms, &missing)),
        );
        assert(items.deep_view() =~= before.push(f(every[i as int])));
        i = i + 1;
        assert(items.deep_view() =~= every.take(i as int).map_values(f));
    }
    assert(every.take(i as int) =~= every);
    let ghost rows = items.deep_view();
    if missing.len() > 1 {
        let label = cat3("Build for all ", &decimal_of(missing.len() as u64), " kernels");
        let fixes = one_fix(Fix::BuildModules(copied_strings(&missing)));
        append_item(&mut items, lone_button(button(&label, true, Press::Fixes(fixes))));
    }
    assert(items.deep_view() =~= dkms_items(s));
    items
}

// ---------------------------------------------------------------------------
// Vulkan
// ---------------------------------------------------------------------------

/// The row of a Vulkan driver.
pub open spec fn icd_row(icd: IcdModel, gpus: Seq<GpuModel>) -> RowModel {
    let name = vendor_name(icd.vendor);
    if !icd.library_present {
        plain_row(
            State::Problem,
            name,
            "The manifest is installed but the driver library it names is not on disk. This is a half-removed package."@,
        )
    } else if has_vendor(gpus, icd.vendor) {
        plain_row(
            State::Good,
            name,
            icd.file + " — drives the "@ + name + " graphics in this machine."@,
        )
    } else {
        plain_row(
            State::Advisory,
            name,
            icd.file + " — installed, but there is no "@ + name + " card here for it to drive."@,
        )
    }
}

/// The button that shows whether Vulkan works.
pub open spec fn vulkan_button() -> ButtonModel {
    ButtonModel {
        label: "Test Vulkan"@,
        suggested: false,
        sensitive: true,
        tip: Some("Runs vkcube, which draws a spinning cube if Vulkan works"@),
        press: PressModel::TestVulkan,
    }
}

/// The rows of every Vulkan driver, and the button that tests it.
pub open spec fn vulkan_items(icds: Seq<IcdModel>, gpus: Seq<GpuModel>) -> Seq<ItemModel> {
    (if icds.len() == 0 {
        seq![
            ItemModel::Row(
                plain_row(
                    State::Problem,
                    "No Vulkan driver"@,
                    "No driver has registered itself with the Vulkan loader."@,
                ),
            ),
        ]
    } else {
        icds.map_values(|icd: IcdModel| ItemModel::Row(icd_row(icd, gpus)))
    }) + seq![ItemModel::Buttons(seq![vulkan_button()])]
}

fn row_of_icd(icd: &VulkanIcd, gpus: &Vec<Gpu>) -> (r: Row)
    ensures
        r.deep_view() == icd_row(icd.deep_view(), gpus.deep_view()),
{
    let name: &str = icd.vendor.name();
    if !icd.library_present {
        row(
            State::Problem,
            name,
            "The manifest is installed but the driver library it names is not on disk. This is a half-removed package.",
        )
    } else if owns_vendor(gpus, icd.vendor) {
        row(
            State::Good,
            name,
            &cat4(&icd.file, " — drives the ", name, " graphics in this machine."),
        )
    } else {
        row(
            State::Advisory,
            name,
            &cat4(
                &icd.file,
                " — installed, but there is no ",
                name,
                " card here for it to drive.",
            ),
        )
    }
}

/// The rows of every Vulkan driver, and the button that tests it.
pub fn vulkan_section(icds: &Vec<VulkanIcd>, gpus: &Vec<Gpu>) -> (r: Vec<Item>)
    ensures
        r.deep_view() == vulkan_items(icds.deep_view(), gpus.deep_view()),
{
    let ghost every = icds.deep_view();
    let ghost all = gpus.deep_view();
    let mut items: Vec<Item> = Vec::new();
    if icds.len() == 0 {
        items = lone_row(
            State::Problem,
            "No Vulkan driver",
            "No driver has registered itself with the Vulkan loader.",
        );
    } else {
        let ghost f = |icd: IcdModel| ItemModel::Row(icd_row(icd, all));
        let mut i: usize = 0;
        assert(items.deep_view() =~= every.take(0).map_values(f));
        while i < icds.len()
            invariant
                i <= icds.len(),
                every == icds.deep_view(),
                all == gpus.deep_view(),
                f == (|icd: IcdModel| ItemModel::Row(icd_row(icd, all))),
                items.deep_view() == every.take(i as int).map_values(f),
            decreases icds.len() - i,
        {
            let ghost before = items.deep_view();
            assert(every[i as int] == icds@[i as int].deep_view());
            append_item(&mut items, Item::Row(row_of_icd(&icds[i], gpus)));
            assert(items.deep_view() =~= before.push(f(every[i as int])));
            i = i + 1;
            assert(items.deep_view() =~= every.take(i as int).map_values(f));
        }
        assert(every.take(i as int) =~= every);
    }
    let ghost rows = items.deep_view();
    append_item(
        &mut items,
        lone_button(
            Button {
                label: String::from_str("Test Vulkan"),
                suggested: false,
                sensitive: true,
                tip: Some("Runs vkcube, which draws a spinning cube if Vulkan works"),
                press: Press::TestVulkan,
            },
        ),
    );
    assert(items.deep_view() =~= rows + seq![ItemModel::Buttons(seq![vulkan_button()])]);
    items
}

/// What is said after the program that tests Vulkan was looked for and started.
#[derive(Debug)]
pub enum VulkanTest {
    Started,
    Failed(String),
    /// The program is not installed.
    Missing,
}

/// What is said after the program that tests Vulkan was looked for and started.
pub fn vulkan_toast(outcome: &VulkanTest) -> (r: String)
    ensures
        r@ == (match outcome {
            VulkanTest::Started => "Opened vkcube — a spinning cube means Vulkan works"@,
            VulkanTest::Failed(error) => "Could not start vkcube: "@ + error@,
            VulkanTest::Missing => "vkcube is not installed; it comes with vulkan-tools"@,
        }),
{
    match outcome {
        VulkanTest::Started => String::from_str(
            "Opened vkcube — a spinning cube means Vulkan works",
        ),
        VulkanTest::Failed(error) => cat2("Could not start vkcube: ", error),
        VulkanTest::Missing => String::from_str(
            "vkcube is not installed; it comes with vulkan-tools",
        ),
    }
}

// ---------------------------------------------------------------------------
// Extras
// ---------------------------------------------------------------------------

/// The row of an optional extra.
pub open spec fn extra_row(r: RequirementModel, packages: Set<Seq<char>>) -> RowModel {
    if packages.contains(r.package) {
        RowModel {
            state: State::Good,
            title: r.package,
            detail: r.reason,
            trailing: TrailingModel::Badge("Installed"@, "installed"@),
        }
    } else {
        install_row(r, State::Advisory, false)
    }
}

/// The packages of extras that are not installed.
pub open spec fn absent(extras: Seq<RequirementModel>, packages: Set<Seq<char>>) -> Seq<Seq<char>> {
    extras.filter_map(
        |r: RequirementModel|
            if packages.contains(r.package) {
                None
            } else {
                Some(r.package)
            },
    )
}

/// The rows of the extras, and a button for all of them where several are not installed.
pub open spec fn extras_items(extras: Seq<RequirementModel>, packages: Set<Seq<char>>) -> Seq<
    ItemModel,
> {
    let missing = absent(extras, packages);
    extras.map_values(|r: RequirementModel| ItemModel::Row(extra_row(r, packages))) + (
    if missing.len() > 1 {
        seq![
            ItemModel::Buttons(
                seq![
                    plain_button(
                        "Install all of them"@,
                        true,
                        PressModel::Fixes(seq![FixModel::Install(missing)]),
                    ),
                ],
            ),
        ]
    } else {
        Seq::empty()
    })
}

/// The rows of the extras, and a button for all of them where several are not installed.
pub fn extras_section(extras: &Vec<Requirement>, packages: &NameSet) -> (r: Vec<Item>)
    ensures
        r.deep_view() == extras_items(extras.deep_view(), packages@),
{
    let ghost every = extras.deep_view();
    let ghost have = packages@;
    let ghost f = |r: RequirementModel| ItemModel::Row(extra_row(r, have));
    let ghost g = |r: RequirementModel|
        if have.contains(r.package) {
            None
        } else {
            Some(r.package)
        };
    let mut items: Vec<Item> = Vec::new();
    let mut missing: Vec<String> = Vec::new();
    let mut i: usize = 0;
    assert(items.deep_view() =~= every.take(0).map_values(f));
    while i < extras.len()
        invariant
            i <= extras.len(),
            every == extras.deep_view(),
            have == packages@,
            f == (|r: RequirementModel| ItemModel::Row(extra_row(r, have))),
            g == (|r: RequirementModel|
                if have.contains(r.package) {
                    None
                } else {
                    Some(r.package)
                }),
            items.deep_view() == every.take(i as int).map_values(f),
            missing.deep_view() == every.take(i as int).filter_map(g),
        decreases extras.len() - i,
    {
        proof {
            lemma_filter_map_step(every, i as int, g);
            assert(every[i as int] == extras@[i as int].deep_view());
        }
        let ghost before = items.deep_view();
        let ghost names = missing.deep_view();
        let extra = &extras[i];
        if packages.contains(&extra.package) {
            append_item(
                &mut items,
                Item::Row(
                    Row {
                        state: State::Good,
                        title: extra.package.clone(),
                        detail: extra.reason.clone(),
                        trailing: Trailing::Badge { text: "Installed", class: "installed" },
                    },
                ),
            );
        } else {
            missing.push(extra.package.clone());
            assert(missing.deep_view() =~= names.push(every[i as int].package));
            append_item(&mut items, Item::Row(installable(extra, State::Advisory, false)));
        }
        assert(items.deep_view() =~= before.push(f(every[i as int])));
        i = i + 1;
        assert(items.deep_view() =~= every.take(i as int).map_values(f));
    }
    assert(every.take(i as int) =~= every);
    if missing.len() > 1 {
        let fixes = one_fix(Fix::Install(missing));
        append_item(
            &mut items,
            lone_button(button("Install all of them", true, Press::Fixes(fixes))),
        );
    }
    assert(items.deep_view() =~= extras_items(every, have));
    items
}

// ---------------------------------------------------------------------------
// The page
// ---------------------------------------------------------------------------

/// The Graphics page.
#[derive(Debug, PartialEq, Eq)]
pub struct GraphicsPage {
    pub cards: Vec<GpuCard>,
    pub two_cards: Option<Row>,
    pub dkms: Vec<Item>,
    pub vulkan: Vec<Item>,
    pub extras: Vec<Item>,
}

/// What the Graphics page shows.
#[verifier::ext_equal]
pub struct GraphicsModel {
    pub cards: Seq<GpuCardModel>,
    pub two_cards: Option<RowModel>,
    pub dkms: Seq<ItemModel>,
    pub vulkan: Seq<ItemModel>,
    pub extras: Seq<ItemModel>,
}

impl DeepView for GraphicsPage {
    type V = GraphicsModel;

    open spec fn deep_view(&self) -> GraphicsModel {
        GraphicsModel {
            cards: self.cards.deep_view(),
            two_cards: self.two_cards.deep_view(),
            dkms: self.dkms.deep_view(),
            vulkan: self.vulkan.deep_view(),
            extras: self.extras.deep_view(),
        }
    }
}

/// What the Graphics page shows; nothing where the machine has no card.
pub open spec fn graphics_of(s: SystemModel, extras: Seq<RequirementModel>) -> Option<
    GraphicsModel,
> {
    if s.gpus.len() == 0 {
        None
    } else {
        Some(
            GraphicsModel {
                cards: s.gpus.map_values(|g: GpuModel| shown_card(g, s)),
                two_cards: if hybrid(s.gpus) {
                    Some(landing_row(s.gpus))
                } else {
                    None
                },
                dkms: dkms_items(s),
                vulkan: vulkan_items(s.icds, s.gpus),
                extras: extras_items(extras, s.packages),
            },
        )
    }
}

/// The Graphics page, for a machine with these optional extras to offer; none where the machine has
/// no card.
pub fn graphics_page(system: &System, extras: &Vec<Requirement>) -> (r: Option<GraphicsPage>)
    ensures
        r.deep_view() == graphics_of(system.deep_view(), extras.deep_view()),
{
    let ghost s = system.deep_view();
    if system.gpus.len() == 0 {
        return None;
    }
    let ghost every = s.gpus;
    let ghost f = |g: GpuModel| shown_card(g, s);
    let mut shown: Vec<GpuCard> = Vec::new();
    let mut i: usize = 0;
    assert(shown.deep_view() =~= every.take(0).map_values(f));
    while i < system.gpus.len()
        invariant
            i <= system.gpus.len(),
            s == system.deep_view(),
            every == s.gpus,
            f == (|g: GpuModel| shown_card(g, s)),
            shown.deep_view() == every.take(i as int).map_values(f),
        decreases system.gpus.len() - i,
    {
        let ghost before = shown.deep_view();
        assert(every[i as int] == system.gpus@[i as int].deep_view());
        shown.push(gpu_card(system, &system.gpus[i]));
        assert(shown.deep_view() =~= before.push(f(every[i as int])));
        i = i + 1;
        assert(shown.deep_view() =~= every.take(i as int).map_values(f));
    }
    assert(every.take(i as int) =~= every);
    Some(
        GraphicsPage {
            cards: shown,
            two_cards: hybrid_row(&system.gpus),
            dkms: dkms_section(system),
            vulkan: vulkan_section(&system.observed.icds, &system.gpus),
            extras: extras_section(extras, &system.packages),
        },
    )
}

// ---------------------------------------------------------------------------
// Laws
// ---------------------------------------------------------------------------

/// A kernel is offered a build exactly where it misses a module.
pub proof fn a_build_is_offered_where_it_is_missing(
    k: KernelModel,
    modules: Seq<DkmsModel>,
    missing: Seq<Seq<char>>,
)
    ensures
        kernel_row(k, modules, missing).trailing is Button <==> missing.contains(k.release),
        kernel_row(k, modules, missing).state == State::Problem <==> missing.contains(k.release),
{
}

/// A card without a render device is a problem, whatever its driver says.
pub proof fn no_render_device_is_a_problem(g: GpuModel, missing: Seq<RequirementModel>)
    requires
        g.render_node is None,
    ensures
        card_rows(g, missing).last().state == State::Problem,
{
}

/// A package belongs to the cards of the vendor that its name names, and the loader to none.
pub proof fn packages_belong_to_the_vendor_they_name(before: Seq<char>, after: Seq<char>)
    ensures
        belongs_to(before + "nvidia"@ + after, Vendor::Nvidia),
        belongs_to(before + "radeon"@ + after, Vendor::Amd),
        belongs_to(before + "mesa"@ + after, Vendor::Amd),
        belongs_to(before + "intel"@ + after, Vendor::Intel),
        !belongs_to(before, Vendor::Other),
{
    lemma_held(before, "nvidia"@, after);
    lemma_held(before, "radeon"@, after);
    lemma_held(before, "mesa"@, after);
    lemma_held(before, "intel"@, after);
}

proof fn lemma_held(before: Seq<char>, word: Seq<char>, after: Seq<char>)
    ensures
        contains(before + word + after, word),
{
    let all = before + word + after;
    let i = before.len() as int;
    assert(all.subrange(i, i + word.len()) =~= word);
}

/// What a card is missing stands on its own card, each as one row that installs it: a problem where the
/// card cannot do without it, and advice where it can.
pub proof fn a_card_lists_what_it_is_missing(g: GpuModel, missing: Seq<RequirementModel>, k: int)
    requires
        0 <= k < missing.len(),
        belongs_to(missing[k].package, g.vendor),
    ensures
        exists|i: int|
            0 < i < card_rows(g, missing).len() - 1 && (#[trigger] card_rows(g, missing)[i]).title
                == missing[k].package && card_rows(g, missing)[i].state == (if missing[k].essential {
                State::Problem
            } else {
                State::Advisory
            }) && card_rows(g, missing)[i].trailing is Button && card_rows(
                g,
                missing,
            )[i].trailing->Button_0.press == PressModel::Fixes(
                seq![FixModel::Install(seq![missing[k].package])],
            ),
{
    let own = missing_for(missing, g.vendor);
    let p = |r: RequirementModel| belongs_to(r.package, g.vendor);
    crate::lists::lemma_filter_members(missing, p);
    assert(missing.contains(missing[k]) && p(missing[k]));
    assert(own.contains(missing[k]));
    let i = choose|i: int| 0 <= i < own.len() && own[i] == missing[k];
    assert(card_rows(g, missing)[i + 1] == need_row(own[i]));
}

/// A card lists nothing that belongs to the cards of another vendor.
pub proof fn a_card_lists_only_its_own(g: GpuModel, missing: Seq<RequirementModel>)
    requires
        forall|k: int|
            0 <= k < missing.len() ==> !belongs_to((#[trigger] missing[k]).package, g.vendor),
    ensures
        card_rows(g, missing).len() == 2,
{
    let own = missing_for(missing, g.vendor);
    crate::lists::lemma_filter_members(
        missing,
        |r: RequirementModel| belongs_to(r.package, g.vendor),
    );
    if own.len() > 0 {
        assert(own.contains(own[0]));
        assert(missing.contains(own[0]));
    }
}

/// Built-in graphics are called so; another card is called discrete where there is a second one.
pub proof fn cards_are_told_apart_where_there_are_two(g: GpuModel, count: int)
    ensures
        g.integrated ==> role_of(g, count) == "Integrated graphics"@,
        !g.integrated && count > 1 ==> role_of(g, count) == "Discrete graphics"@,
        !g.integrated && count <= 1 ==> role_of(g, count) == "Graphics"@,
{
}

/// A machine with two cards is advised exactly where the card that a game lands on is not the one it is
/// played on.
pub proof fn two_cards_are_advised_on_where_the_game_lands_on_the_wrong_one(
    gpus: Seq<GpuModel>,
    lands: GpuModel,
    fast: GpuModel,
)
    requires
        landing_card(gpus) == Some(lands),
        playing_card(gpus) == Some(fast),
    ensures
        landing_row(gpus).state == State::Good <==> gpu_title(lands) == gpu_title(fast),
        landing_row(gpus).state == State::Advisory <==> gpu_title(lands) != gpu_title(fast),
{
}

/// What is built for a kernel is every module that is installed for it, with its version.
pub proof fn a_kernel_lists_what_is_installed_for_it(
    modules: Seq<DkmsModel>,
    release: Seq<char>,
    text: Seq<char>,
)
    ensures
        built_for(modules, release).contains(text) <==> exists|k: int|
            0 <= k < modules.len() && (#[trigger] modules[k]).kernel == release && modules[k].state
                == "installed"@ && text == modules[k].name + " "@ + modules[k].version,
{
    let f = |m: DkmsModel|
        if m.kernel == release && m.state == "installed"@ {
            Some(m.name + " "@ + m.version)
        } else {
            None
        };
    crate::lists::lemma_picked(modules, f, text);
    if built_for(modules, release).contains(text) {
        let k = choose|k: int| 0 <= k < modules.len() && f(#[trigger] modules[k]) == Some(text);
        assert(modules[k].kernel == release);
    }
    if exists|k: int|
        0 <= k < modules.len() && (#[trigger] modules[k]).kernel == release && modules[k].state
            == "installed"@ && text == modules[k].name + " "@ + modules[k].version {
        let k = choose|k: int|
            0 <= k < modules.len() && (#[trigger] modules[k]).kernel == release && modules[k].state
                == "installed"@ && text == modules[k].name + " "@ + modules[k].version;
        assert(f(modules[k]) == Some(text));
    }
}

/// A Vulkan driver is a problem without its library, good where it drives a card that is there, and
/// advice where it has none to drive.
pub proof fn a_vulkan_driver_needs_its_library_and_a_card(icd: IcdModel, gpus: Seq<GpuModel>)
    ensures
        icd_row(icd, gpus).state == (if !icd.library_present {
            State::Problem
        } else if exists|k: int| 0 <= k < gpus.len() && (#[trigger] gpus[k]).vendor == icd.vendor {
            State::Good
        } else {
            State::Advisory
        }),
{
}

/// Vulkan can be tested whatever is registered, and where nothing is that is a problem.
pub proof fn vulkan_can_be_tested(icds: Seq<IcdModel>, gpus: Seq<GpuModel>)
    ensures
        vulkan_items(icds, gpus).last() is Buttons,
        vulkan_items(icds, gpus).last()->Buttons_0[0].press == PressModel::TestVulkan,
        icds.len() == 0 ==> vulkan_items(icds, gpus)[0] is Row && vulkan_items(icds, gpus)[0]->Row_0.state
            == State::Problem,
        icds.len() > 0 ==> vulkan_items(icds, gpus).len() == icds.len() + 1,
{
}

/// What several extras are missing is installed by one button: all of them, and nothing that is there.
pub proof fn the_extras_that_are_missing_are_installed_together(
    extras: Seq<RequirementModel>,
    packages: Set<Seq<char>>,
    name: Seq<char>,
)
    ensures
        absent(extras, packages).contains(name) <==> !packages.contains(name) && exists|k: int|
            0 <= k < extras.len() && (#[trigger] extras[k]).package == name,
        absent(extras, packages).len() > 1 ==> extras_items(extras, packages).last() is Buttons
            && extras_items(extras, packages).last()->Buttons_0[0].press == PressModel::Fixes(
            seq![FixModel::Install(absent(extras, packages))],
        ),
        absent(extras, packages).len() <= 1 ==> extras_items(extras, packages).len() == extras.len(),
{
    let f = |r: RequirementModel|
        if packages.contains(r.package) {
            None
        } else {
            Some(r.package)
        };
    crate::lists::lemma_picked(extras, f, name);
    if absent(extras, packages).contains(name) {
        let k = choose|k: int| 0 <= k < extras.len() && f(#[trigger] extras[k]) == Some(name);
        assert(extras[k].package == name);
    }
    if !packages.contains(name) && exists|k: int|
        0 <= k < extras.len() && (#[trigger] extras[k]).package == name {
        let k = choose|k: int| 0 <= k < extras.len() && (#[trigger] extras[k]).package == name;
        assert(f(extras[k]) == Some(name));
    }
}

/// An extra that is installed is said to be, and one that is not can be installed.
pub proof fn an_extra_is_installed_or_offered(r: RequirementModel, packages: Set<Seq<char>>)
    ensures
        packages.contains(r.package) <==> extra_row(r, packages).state == State::Good,
        !packages.contains(r.package) ==> extra_row(r, packages).state == State::Advisory && extra_row(
            r,
            packages,
        ).trailing is Button && extra_row(r, packages).trailing->Button_0.press == PressModel::Fixes(
            seq![FixModel::Install(seq![r.package])],
        ),
{
}

/// Several kernels that miss a module are built for by one button, and all of them.
pub proof fn every_kernel_left_behind_is_built_for(s: SystemModel)
    requires
        s.dkms_available,
        s.dkms.len() > 0,
    ensures
        missing_kernels(s.dkms, s.kernels).len() > 1 ==> dkms_items(s).last() is Buttons && dkms_items(
            s,
        ).last()->Buttons_0[0].press == PressModel::Fixes(
            seq![FixModel::BuildModules(missing_kernels(s.dkms, s.kernels))],
        ),
        missing_kernels(s.dkms, s.kernels).len() <= 1 ==> dkms_items(s).len() == s.kernels.len(),
        forall|i: int|
            0 <= i < s.kernels.len() ==> (#[trigger] dkms_items(s)[i]) is Row && (dkms_items(
                s,
            )[i]->Row_0.state == State::Problem <==> missing_kernels(s.dkms, s.kernels).contains(
                s.kernels[i].release,
            )),
{
}

/// The first row of a card says whether it is ready, in the words of the verdict on it, and the last
/// which device a game opens.
pub proof fn a_card_says_whether_it_is_ready(g: GpuModel, missing: Seq<RequirementModel>)
    ensures
        card_rows(g, missing)[0].state == (if verdict_of(g, missing_for(missing, g.vendor)).good {
            State::Good
        } else {
            State::Problem
        }),
        card_rows(g, missing)[0].title == verdict_of(g, missing_for(missing, g.vendor)).headline,
        g.render_node is Some ==> card_rows(g, missing).last().state == State::Good,
{
}

/// A kernel that misses nothing is good, and the running one is said to be running.
pub proof fn a_kernel_that_misses_nothing_is_good(
    k: KernelModel,
    modules: Seq<DkmsModel>,
    missing: Seq<Seq<char>>,
)
    ensures
        !missing.contains(k.release) ==> kernel_row(k, modules, missing).state == State::Good
            && kernel_row(k, modules, missing).trailing is Nothing,
        missing.contains(k.release) ==> kernel_row(k, modules, missing).trailing->Button_0.press
            == PressModel::Fixes(seq![FixModel::BuildModules(seq![k.release])]),
        k.running ==> kernel_row(k, modules, missing).title == k.release + " (running now)"@,
        !k.running ==> kernel_row(k, modules, missing).title == k.release,
{
}

} // verus!
