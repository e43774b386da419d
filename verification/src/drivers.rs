//! Graphics drivers: what is installed, what is missing, and what to build.
//!
//! Three questions are kept apart: whether a kernel module is bound to the card, whether the
//! userspace half is installed, and whether it will still work after the next reboot.
use vstd::prelude::*;
use crate::collections::NameSet;
use crate::gpu::{driver_label, vendor_name, DriverKind, Gpu, GpuModel, Vendor};
use crate::json::{json_read, list_in, member, models, read_json, text_in, Json, JsonModel};
use crate::lists::{lemma_filter_map_step, lemma_filter_members};
use crate::number::{decimal, decimal_of};
use crate::order::{
    by_rank, in_order, no_later, ranks, sort, sorting_orders, text_le, text_le_total,
    text_le_transitive, Ranked,
};
use crate::path::{join, joined_path};
use crate::query::{among, answers, steady, Asking, Question};
use crate::text::{
    all_digits, cat2, cat3, cat4, cat5, chars_of, cut, cut_last, equal, lines, lines_of,
    only_digits, pieces, reads, rsplit_once, split, split_once, string_of, texts, trim, trimmed,
};

verus! {

// ---------------------------------------------------------------------------
// Kernels and DKMS
// ---------------------------------------------------------------------------

/// One kernel installed on this machine.
#[derive(Debug, Clone, PartialEq, Eq, PartialOrd, Ord)]
pub struct Kernel {
    /// `6.17.11-raven`, as `uname -r` gives it.
    pub release: String,
    /// Whether this is the one currently booted.
    pub running: bool,
}

/// What is known of a kernel.
#[verifier::ext_equal]
pub struct KernelModel {
    pub release: Seq<char>,
    pub running: bool,
}

impl DeepView for Kernel {
    type V = KernelModel;

    open spec fn deep_view(&self) -> KernelModel {
        KernelModel { release: self.release@, running: self.running }
    }
}

impl Ranked for Kernel {
    open spec fn le(a: KernelModel, b: KernelModel) -> bool {
        if a.running != b.running {
            a.running
        } else {
            text_le(a.release, b.release)
        }
    }

    fn at_most(&self, other: &Kernel) -> (r: bool) {
        if self.running != other.running {
            self.running
        } else {
            no_later(&self.release, &other.release)
        }
    }
}

/// One DKMS module, for one kernel.
#[derive(Debug, Clone, PartialEq, Eq)]
pub struct DkmsModule {
    pub name: String,
    pub version: String,
    pub kernel: String,
    /// `installed`, `built`, `added`, or whatever else dkms reported.
    pub state: String,
}

/// What is known of a DKMS module.
#[verifier::ext_equal]
pub struct DkmsModel {
    pub name: Seq<char>,
    pub version: Seq<char>,
    pub kernel: Seq<char>,
    pub state: Seq<char>,
}

impl DeepView for DkmsModule {
    type V = DkmsModel;

    open spec fn deep_view(&self) -> DkmsModel {
        DkmsModel {
            name: self.name@,
            version: self.version@,
            kernel: self.kernel@,
            state: self.state@,
        }
    }
}

impl DkmsModule {
    /// Only `installed` means the module is in place for that kernel. `built` means compiled but
    /// not put where the kernel will find it.
    pub fn is_installed(&self) -> (r: bool)
        ensures
            r == (self.deep_view().state == "installed"@),
    {
        equal(&self.state, "installed")
    }
}

/// A directory among the kernels' modules, and what stands in it.
#[derive(Debug)]
pub struct ModuleDirectory {
    pub release: String,
    pub has_pkgbase: bool,
    pub has_modules_dep: bool,
}

/// What is known of a directory among the kernels' modules.
#[verifier::ext_equal]
pub struct ModuleDirectoryModel {
    pub release: Seq<char>,
    pub has_pkgbase: bool,
    pub has_modules_dep: bool,
}

impl DeepView for ModuleDirectory {
    type V = ModuleDirectoryModel;

    open spec fn deep_view(&self) -> ModuleDirectoryModel {
        ModuleDirectoryModel {
            release: self.release@,
            has_pkgbase: self.has_pkgbase,
            has_modules_dep: self.has_modules_dep,
        }
    }
}

/// The kernel that a directory belongs to, where it is one that can be booted.
pub open spec fn kernel_in(d: ModuleDirectoryModel, running: Seq<char>) -> Option<KernelModel> {
    if d.has_pkgbase || d.has_modules_dep {
        Some(KernelModel { release: d.release, running: d.release == running })
    } else {
        None
    }
}

/// Every kernel with modules on disk, the running one first. Stale directories of removed kernels
/// are left out.
pub fn installed_kernels(directories: &Vec<ModuleDirectory>, running: &str) -> (r: Vec<Kernel>)
    ensures
        r.deep_view() == by_rank::<Kernel>(
            directories.deep_view().filter_map(|d: ModuleDirectoryModel| kernel_in(d, running@)),
        ),
{
    let mut kernels: Vec<Kernel> = Vec::new();
    let ghost all = directories.deep_view();
    let ghost f = |d: ModuleDirectoryModel| kernel_in(d, running@);
    let mut i: usize = 0;
    while i < directories.len()
        invariant
            i <= directories.len(),
            all == directories.deep_view(),
            f == (|d: ModuleDirectoryModel| kernel_in(d, running@)),
            kernels.deep_view() == all.take(i as int).filter_map(f),
        decreases directories.len() - i,
    {
        proof {
            lemma_filter_map_step(all, i as int, f);
        }
        let ghost before = kernels.deep_view();
        let d = &directories[i];
        if d.has_pkgbase || d.has_modules_dep {
            kernels.push(
                Kernel { running: equal(&d.release, running), release: d.release.clone() },
            );
            assert(kernels.deep_view() =~= before.push(kernel_in(d.deep_view(), running@)->0));
        }
        i = i + 1;
    }
    assert(all.take(i as int) =~= all);
    sort(kernels)
}

/// The release of the running kernel, from the text of `/proc/sys/kernel/osrelease`; empty where
/// that could not be read.
pub fn running_kernel(osrelease: Option<&str>) -> (r: String)
    ensures
        r@ == (match osrelease.deep_view() {
            Some(t) => trim(t),
            None => Seq::empty(),
        }),
{
    match crate::gpu::read_text(osrelease) {
        Some(t) => t,
        None => String::new(),
    }
}

/// Whether DKMS is installed at all, given the commands that were found. A distribution kernel
/// module that is not a DKMS one has nothing here, and that is a fine state to be in.
pub fn dkms_available(commands: &NameSet) -> (r: bool)
    ensures
        r == commands@.contains("dkms"@),
{
    commands.contains("dkms")
}

/// Everything that `dkms status` wrote, or nothing where it could not be run.
pub fn dkms_status(output: Option<&str>) -> (r: Vec<DkmsModule>)
    ensures
        r.deep_view() == (match output.deep_view() {
            Some(t) => dkms_modules(t),
            None => Seq::empty(),
        }),
{
    match output {
        Some(t) => parse_dkms_status(t),
        None => {
            let none: Vec<DkmsModule> = Vec::new();
            assert(none.deep_view() =~= Seq::empty());
            none
        },
    }
}

/// The fields of a status line, which commas separate.
pub open spec fn fields_of(left: Seq<char>) -> Seq<Seq<char>> {
    split(left, ',').map_values(|f: Seq<char>| trim(f))
}

/// The module that a line of `dkms status` reports. The modern format is `name/version, kernel,
/// arch: state`; older dkms wrote `name, version, kernel, arch: state`.
pub open spec fn dkms_line(line: Seq<char>) -> Option<DkmsModel> {
    match rsplit_once(trim(line), ':') {
        Some((left, state)) => {
            let fields = fields_of(left);
            if fields.len() == 3 {
                match split_once(fields[0], '/') {
                    Some((name, version)) => Some(
                        DkmsModel { name, version, kernel: fields[1], state: trim(state) },
                    ),
                    None => None,
                }
            } else if fields.len() == 4 {
                Some(
                    DkmsModel {
                        name: fields[0],
                        version: fields[1],
                        kernel: fields[2],
                        state: trim(state),
                    },
                )
            } else {
                None
            }
        },
        None => None,
    }
}

/// The modules that `dkms status` reports.
pub open spec fn dkms_modules(text: Seq<char>) -> Seq<DkmsModel> {
    lines(text).filter_map(|line: Seq<char>| dkms_line(line))
}

fn read_dkms_line(line: &[char]) -> (r: Option<DkmsModule>)
    ensures
        r.deep_view() == dkms_line(line@),
{
    match cut_last(trimmed(line), ':') {
        Some((left, state)) => {
            let fields = pieces(left, ',');
            let ghost trimmed_fields = fields_of(left@);
            assert(fields@.len() == trimmed_fields.len());
            assert forall|i: int| 0 <= i < fields@.len() implies trim(#[trigger] fields@[i]@)
                == trimmed_fields[i] by {
                assert(texts(fields@)[i] == fields@[i]@);
            }
            let state = string_of(trimmed(state));
            if fields.len() == 3 {
                match cut(trimmed(fields[0]), '/') {
                    Some((name, version)) => Some(
                        DkmsModule {
                            name: string_of(name),
                            version: string_of(version),
                            kernel: string_of(trimmed(fields[1])),
                            state,
                        },
                    ),
                    None => None,
                }
            } else if fields.len() == 4 {
                Some(
                    DkmsModule {
                        name: string_of(trimmed(fields[0])),
                        version: string_of(trimmed(fields[1])),
                        kernel: string_of(trimmed(fields[2])),
                        state,
                    },
                )
            } else {
                None
            }
        },
        None => None,
    }
}

/// Parses `dkms status`, in either of the formats it has had; other lines are skipped.
pub fn parse_dkms_status(text: &str) -> (r: Vec<DkmsModule>)
    ensures
        r.deep_view() == dkms_modules(text@),
{
    let chars = chars_of(text);
    let all = lines_of(&chars);
    let ghost every = texts(all@);
    let ghost f = |line: Seq<char>| dkms_line(line);
    let mut modules: Vec<DkmsModule> = Vec::new();
    let mut i: usize = 0;
    while i < all.len()
        invariant
            i <= all.len(),
            every == texts(all@),
            every == lines(text@),
            f == (|line: Seq<char>| dkms_line(line)),
            modules.deep_view() == every.take(i as int).filter_map(f),
        decreases all.len() - i,
    {
        proof {
            lemma_filter_map_step(every, i as int, f);
        }
        let ghost before = modules.deep_view();
        if let Some(module) = read_dkms_line(all[i]) {
            let ghost m = module.deep_view();
            modules.push(module);
            assert(modules.deep_view() =~= before.push(m));
        }
        i = i + 1;
    }
    assert(every.take(i as int) =~= every);
    modules
}

/// A module of that name is in place for a kernel.
pub open spec fn in_place(
    modules: Seq<DkmsModel>,
    name: Seq<char>,
    kernel: Seq<char>,
) -> bool {
    exists|j: int|
        0 <= j < modules.len() && (#[trigger] modules[j]).name == name && modules[j].kernel
            == kernel && modules[j].state == "installed"@
}

/// Some module known to dkms is not in place for a kernel.
pub open spec fn lacks_a_module(modules: Seq<DkmsModel>, kernel: Seq<char>) -> bool {
    exists|i: int|
        0 <= i < modules.len() && !in_place(modules, (#[trigger] modules[i]).name, kernel)
}

/// What is known of each module of a list.
pub open spec fn modules_of(modules: Seq<DkmsModule>) -> Seq<DkmsModel> {
    Seq::new(modules.len(), |i: int| modules[i].deep_view())
}

/// What is known of each kernel of a list.
pub open spec fn kernels_of(kernels: Seq<Kernel>) -> Seq<KernelModel> {
    Seq::new(kernels.len(), |i: int| kernels[i].deep_view())
}

/// The kernels that a module is missing from.
pub open spec fn missing_kernels(
    modules: Seq<DkmsModel>,
    kernels: Seq<KernelModel>,
) -> Seq<Seq<char>> {
    kernels.filter_map(
        |k: KernelModel|
            if lacks_a_module(modules, k.release) {
                Some(k.release)
            } else {
                None
            },
    )
}

fn is_in_place(modules: &[DkmsModule], name: &str, kernel: &str) -> (r: bool)
    ensures
        r == in_place(modules_of(modules@), name@, kernel@),
{
    let ghost all = modules_of(modules@);
    let mut i: usize = 0;
    while i < modules.len()
        invariant
            i <= modules.len(),
            all == modules_of(modules@),
            forall|j: int|
                0 <= j < i ==> !((#[trigger] all[j]).name == name@ && all[j].kernel == kernel@
                    && all[j].state == "installed"@),
        decreases modules.len() - i,
    {
        assert(all[i as int] == modules@[i as int].deep_view());
        let m = &modules[i];
        if equal(&m.name, name) && equal(&m.kernel, kernel) && m.is_installed() {
            return true;
        }
        i = i + 1;
    }
    false
}

fn is_lacking(modules: &[DkmsModule], kernel: &str) -> (r: bool)
    ensures
        r == lacks_a_module(modules_of(modules@), kernel@),
{
    let ghost all = modules_of(modules@);
    let mut i: usize = 0;
    while i < modules.len()
        invariant
            i <= modules.len(),
            all == modules_of(modules@),
            forall|j: int| 0 <= j < i ==> in_place(all, (#[trigger] all[j]).name, kernel@),
        decreases modules.len() - i,
    {
        assert(all[i as int] == modules@[i as int].deep_view());
        if !is_in_place(modules, &modules[i].name, kernel) {
            return true;
        }
        i = i + 1;
    }
    false
}

/// The kernels that a DKMS module is missing from, given everything dkms reported and every kernel
/// on disk. A module known to dkms but not installed for a kernel is the reboot that comes up with
/// no driver.
pub fn kernels_missing_modules(modules: &[DkmsModule], kernels: &[Kernel]) -> (r: Vec<String>)
    ensures
        r.deep_view() == missing_kernels(modules_of(modules@), kernels_of(kernels@)),
{
    let ghost all = kernels_of(kernels@);
    let ghost known = modules_of(modules@);
    let ghost f = |k: KernelModel|
        if lacks_a_module(known, k.release) {
            Some(k.release)
        } else {
            None
        };
    let mut out: Vec<String> = Vec::new();
    let mut i: usize = 0;
    while i < kernels.len()
        invariant
            i <= kernels.len(),
            all == kernels_of(kernels@),
            known == modules_of(modules@),
            f == (|k: KernelModel|
                if lacks_a_module(known, k.release) {
                    Some(k.release)
                } else {
                    None
                }),
            out.deep_view() == all.take(i as int).filter_map(f),
        decreases kernels.len() - i,
    {
        proof {
            lemma_filter_map_step(all, i as int, f);
            assert(all[i as int] == kernels@[i as int].deep_view());
        }
        let ghost before = out.deep_view();
        if is_lacking(modules, &kernels[i].release) {
            out.push(kernels[i].release.clone());
            assert(out.deep_view() =~= before.push(all[i as int].release));
        }
        i = i + 1;
    }
    assert(all.take(i as int) =~= all);
    out
}

// ---------------------------------------------------------------------------
// What a card needs
// ---------------------------------------------------------------------------

/// A package this machine ought to have, and why.
#[derive(Debug, PartialEq, Eq)]
pub struct Requirement {
    pub package: String,
    /// What breaks without it, in the person's terms rather than the packager's.
    pub reason: String,
    /// Whether a game simply will not start without this, as against running but worse.
    pub essential: bool,
}

/// What is known of a requirement.
#[verifier::ext_equal]
pub struct RequirementModel {
    pub package: Seq<char>,
    pub reason: Seq<char>,
    pub essential: bool,
}

impl DeepView for Requirement {
    type V = RequirementModel;

    open spec fn deep_view(&self) -> RequirementModel {
        RequirementModel {
            package: self.package@,
            reason: self.reason@,
            essential: self.essential,
        }
    }
}

impl Clone for Requirement {
    fn clone(&self) -> (r: Requirement)
        ensures
            r.deep_view() == self.deep_view(),
    {
        Requirement {
            package: self.package.clone(),
            reason: self.reason.clone(),
            essential: self.essential,
        }
    }
}

/// A requirement with its reason.
pub open spec fn need(package: Seq<char>, reason: Seq<char>, essential: bool) -> RequirementModel {
    RequirementModel { package, reason, essential }
}

impl Requirement {
    pub fn new(package: &str, reason: &str, essential: bool) -> (r: Requirement)
        ensures
            r.deep_view() == need(package@, reason@, essential),
    {
        Requirement {
            package: String::from_str(package),
            reason: String::from_str(reason),
            essential,
        }
    }
}

/// The first device ID of the Turing generation.
pub const FIRST_TURING_DEVICE_ID: u16 = 0x1e00;

/// NVIDIA's open kernel modules cover Turing and everything after it. Older cards need the
/// proprietary module or they get no driver at all. NVIDIA has allocated its device IDs in order
/// for twenty years and Turing starts at `0x1e00`.
pub fn nvidia_open_supported(device_id: u16) -> (r: bool)
    ensures
        r == (device_id >= 0x1e00),
{
    device_id >= FIRST_TURING_DEVICE_ID
}

/// The module package for an NVIDIA card.
pub open spec fn nvidia_module(device_id: u16) -> Seq<char> {
    if device_id >= 0x1e00 {
        "nvidia-open-dkms"@
    } else {
        "nvidia-dkms"@
    }
}

/// What one card needs. Any of the NVIDIA module packages counts as a driver.
pub open spec fn needs_of(g: GpuModel, installed: spec_fn(Seq<char>) -> bool) -> Seq<
    RequirementModel,
> {
    match g.vendor {
        Vendor::Nvidia => (if !installed(nvidia_module(g.device_id)) && !installed("nvidia-open"@)
            && !installed("nvidia"@) {
            seq![
                need(
                    nvidia_module(g.device_id),
                    "the kernel driver for your NVIDIA card, rebuilt automatically for every kernel you install"@,
                    true,
                ),
            ]
        } else {
            Seq::empty()
        }) + seq![
            need(
                "nvidia-utils"@,
                "NVIDIA's OpenGL and Vulkan libraries — without these no 3D game starts"@,
                true,
            ),
            need(
                "lib32-nvidia-utils"@,
                "the 32-bit half of the same libraries, which every Proton and Steam Play game needs"@,
                true,
            ),
        ],
        Vendor::Amd => seq![
            need("vulkan-radeon"@, "the Vulkan driver for your AMD card"@, true),
            need(
                "lib32-vulkan-radeon"@,
                "the 32-bit Vulkan driver, which every Proton and Steam Play game needs"@,
                true,
            ),
            need("lib32-mesa"@, "32-bit OpenGL for older native games"@, false),
        ],
        Vendor::Intel => seq![
            need("vulkan-intel"@, "the Vulkan driver for your Intel graphics"@, true),
            need(
                "lib32-vulkan-intel"@,
                "the 32-bit Vulkan driver, which every Proton and Steam Play game needs"@,
                true,
            ),
        ],
        Vendor::Other => Seq::empty(),
    }
}

/// What some cards need, card by card.
pub open spec fn needs_of_cards(
    gpus: Seq<GpuModel>,
    installed: spec_fn(Seq<char>) -> bool,
) -> Seq<RequirementModel>
    decreases gpus.len(),
{
    if gpus.len() == 0 {
        Seq::empty()
    } else {
        needs_of_cards(gpus.drop_last(), installed) + needs_of(gpus.last(), installed)
    }
}

/// What a game needs regardless of whose card it is.
pub open spec fn common_needs() -> Seq<RequirementModel> {
    seq![
        need(
            "vulkan-icd-loader"@,
            "the loader every Vulkan game asks for a driver through"@,
            true,
        ),
        need("lib32-vulkan-icd-loader"@, "the 32-bit Vulkan loader, for Proton"@, true),
    ]
}

/// A package is asked for among some requirements.
pub open spec fn asks_for(s: Seq<RequirementModel>, package: Seq<char>) -> bool {
    exists|i: int| 0 <= i < s.len() && (#[trigger] s[i]).package == package
}

/// Requirements without those whose package was asked for earlier.
pub open spec fn unrepeated(s: Seq<RequirementModel>) -> Seq<RequirementModel>
    decreases s.len(),
{
    if s.len() == 0 {
        s
    } else if asks_for(s.drop_last(), s.last().package) {
        unrepeated(s.drop_last())
    } else {
        unrepeated(s.drop_last()).push(s.last())
    }
}

/// What a machine needs to run games and does not have.
pub open spec fn requirements_of(
    gpus: Seq<GpuModel>,
    installed: spec_fn(Seq<char>) -> bool,
) -> Seq<RequirementModel> {
    unrepeated(needs_of_cards(gpus, installed) + common_needs()).filter(
        |r: RequirementModel| !installed(r.package),
    )
}

fn add_needs<Q: Question>(gpu: &Gpu, installed: &Q, wanted: &mut Vec<Requirement>)
    requires
        installed.open_to_all(),
    ensures
        final(wanted).deep_view() == old(wanted).deep_view() + needs_of(
            gpu.deep_view(),
            installed.yes(),
        ),
{
    let ghost before = wanted.deep_view();
    match gpu.vendor {
        Vendor::Nvidia => {
            let module: &str = if nvidia_open_supported(gpu.device_id) {
                "nvidia-open-dkms"
            } else {
                "nvidia-dkms"
            };
            if !installed.put(module) && !installed.put("nvidia-open") && !installed.put("nvidia") {
                wanted.push(
                    Requirement::new(
                        module,
                        "the kernel driver for your NVIDIA card, rebuilt automatically for every kernel you install",
                        true,
                    ),
                );
            }
            wanted.push(
                Requirement::new(
                    "nvidia-utils",
                    "NVIDIA's OpenGL and Vulkan libraries — without these no 3D game starts",
                    true,
                ),
            );
            wanted.push(
                Requirement::new(
                    "lib32-nvidia-utils",
                    "the 32-bit half of the same libraries, which every Proton and Steam Play game needs",
                    true,
                ),
            );
        },
        Vendor::Amd => {
            wanted.push(
                Requirement::new("vulkan-radeon", "the Vulkan driver for your AMD card", true),
            );
            wanted.push(
                Requirement::new(
                    "lib32-vulkan-radeon",
                    "the 32-bit Vulkan driver, which every Proton and Steam Play game needs",
                    true,
                ),
            );
            wanted.push(
                Requirement::new("lib32-mesa", "32-bit OpenGL for older native games", false),
            );
        },
        Vendor::Intel => {
            wanted.push(
                Requirement::new(
                    "vulkan-intel",
                    "the Vulkan driver for your Intel graphics",
                    true,
                ),
            );
            wanted.push(
                Requirement::new(
                    "lib32-vulkan-intel",
                    "the 32-bit Vulkan driver, which every Proton and Steam Play game needs",
                    true,
                ),
            );
        },
        Vendor::Other => {},
    }
    assert(wanted.deep_view() =~= before + needs_of(gpu.deep_view(), installed.yes()));
}

/// The packages a card needs to run games, given what is on the system.
///
/// Only packages that are actually missing come back, so an empty list is the good answer.
pub fn requirements<F: Fn(&str) -> bool>(gpus: &[Gpu], installed: &F) -> (r: Vec<Requirement>)
    requires
        steady(*installed),
    ensures
        r.deep_view() == requirements_of(crate::gpu::cards(gpus@), answers(*installed)),
{
    missing_from(gpus, &Asking(installed))
}

/// The packages a card needs to run games and that are not among the installed ones.
pub fn missing_packages(gpus: &[Gpu], installed: &NameSet) -> (r: Vec<Requirement>)
    ensures
        r.deep_view() == requirements_of(crate::gpu::cards(gpus@), among(installed@)),
{
    missing_from(gpus, installed)
}

fn missing_from<Q: Question>(gpus: &[Gpu], installed: &Q) -> (r: Vec<Requirement>)
    requires
        installed.open_to_all(),
    ensures
        r.deep_view() == requirements_of(crate::gpu::cards(gpus@), installed.yes()),
{
    let ghost got = installed.yes();
    let ghost all = crate::gpu::cards(gpus@);
    let mut wanted: Vec<Requirement> = Vec::new();
    let mut i: usize = 0;
    assert(wanted.deep_view() =~= Seq::empty());
    while i < gpus.len()
        invariant
            i <= gpus.len(),
            installed.open_to_all(),
            got == installed.yes(),
            all == crate::gpu::cards(gpus@),
            wanted.deep_view() == needs_of_cards(all.take(i as int), got),
        decreases gpus.len() - i,
    {
        assert(all.take(i + 1).drop_last() =~= all.take(i as int));
        assert(all.take(i + 1).last() == gpus@[i as int].deep_view());
        add_needs(&gpus[i], installed, &mut wanted);
        i = i + 1;
    }
    assert(all.take(i as int) =~= all);
    let ghost cards_need = wanted.deep_view();
    wanted.push(
        Requirement::new(
            "vulkan-icd-loader",
            "the loader every Vulkan game asks for a driver through",
            true,
        ),
    );
    wanted.push(
        Requirement::new(
            "lib32-vulkan-icd-loader",
            "the 32-bit Vulkan loader, for Proton",
            true,
        ),
    );
    assert(wanted.deep_view() =~= cards_need + common_needs());
    let ghost every = wanted.deep_view();
    let ghost lacking = |r: RequirementModel| !got(r.package);
    let mut out: Vec<Requirement> = Vec::new();
    let mut k: usize = 0;
    assert(every.take(0) =~= Seq::empty());
    proof {
        reveal(Seq::filter);
    }
    assert(out.deep_view() =~= unrepeated(every.take(0)).filter(lacking));
    while k < wanted.len()
        invariant
            k <= wanted.len(),
            installed.open_to_all(),
            got == installed.yes(),
            lacking == (|r: RequirementModel| !got(r.package)),
            every == wanted.deep_view(),
            out.deep_view() == unrepeated(every.take(k as int)).filter(lacking),
        decreases wanted.len() - k,
    {
        let ghost before = out.deep_view();
        let ghost sofar = every.take(k as int);
        assert(every.take(k + 1).drop_last() =~= sofar);
        assert(every.take(k + 1).last() == wanted@[k as int].deep_view());
        let mut repeated: bool = false;
        let mut j: usize = 0;
        while j < k
            invariant
                j <= k,
                k < wanted.len(),
                every == wanted.deep_view(),
                sofar == every.take(k as int),
                repeated == exists|n: int|
                    0 <= n < j && (#[trigger] sofar[n]).package == wanted@[k as int].package@,
            decreases k - j,
        {
            assert(sofar[j as int].package == wanted@[j as int].package@);
            if equal(&wanted[j].package, &wanted[k].package) {
                repeated = true;
            }
            j = j + 1;
        }
        assert(repeated == asks_for(sofar, wanted@[k as int].package@));
        if !repeated {
            proof {
                unrepeated(sofar).lemma_filter_push(wanted@[k as int].deep_view(), lacking);
            }
            if !installed.put(&wanted[k].package) {
                out.push(wanted[k].clone());
                assert(out.deep_view() =~= before.push(wanted@[k as int].deep_view()));
            }
        }
        k = k + 1;
    }
    assert(every.take(k as int) =~= every);
    out
}

// ---------------------------------------------------------------------------
// What is installed
// ---------------------------------------------------------------------------

/// The package names in one line of rvn's output: those of an `installed` event.
pub open spec fn package_names(event: JsonModel) -> Seq<Seq<char>> {
    if text_in(member(event, "event"@)) == Some("installed"@) {
        match list_in(member(event, "packages"@)) {
            Some(packages) => packages.filter_map(
                |p: JsonModel| text_in(member(p, "name"@)),
            ),
            None => Seq::empty(),
        }
    } else {
        Seq::empty()
    }
}

/// The package names in one line of rvn's output.
pub fn packages_in(event: &Json) -> (r: Vec<String>)
    ensures
        r.deep_view() == package_names(event.model()),
{
    let mut out: Vec<String> = Vec::new();
    let installed: bool = match event.text_at("event") {
        Some(kind) => equal(kind, "installed"),
        None => false,
    };
    assert(out.deep_view() =~= Seq::empty());
    if !installed {
        return out;
    }
    if let Some(list) = event.get("packages") {
        if let Some(packages) = list.list() {
            let ghost every = models(packages@);
            let ghost f = |p: JsonModel| text_in(member(p, "name"@));
            let mut i: usize = 0;
            while i < packages.len()
                invariant
                    i <= packages.len(),
                    every == models(packages@),
                    f == (|p: JsonModel| text_in(member(p, "name"@))),
                    out.deep_view() == every.take(i as int).filter_map(f),
                decreases packages.len() - i,
            {
                proof {
                    lemma_filter_map_step(every, i as int, f);
                }
                let ghost before = out.deep_view();
                if let Some(name) = packages[i].text_at("name") {
                    out.push(name.clone());
                    assert(out.deep_view() =~= before.push(name@));
                }
                i = i + 1;
            }
            assert(every.take(i as int) =~= every);
        }
    }
    out
}

/// The package names in rvn's output, line by line; lines that are not JSON hold none.
pub open spec fn listed_names(lines: Seq<Seq<char>>) -> Seq<Seq<char>>
    decreases lines.len(),
{
    if lines.len() == 0 {
        Seq::empty()
    } else {
        listed_names(lines.drop_last()) + (match json_read(lines.last()) {
            Some(event) => package_names(event),
            None => Seq::empty(),
        })
    }
}

/// Package names out of rvn's `installed` events.
pub fn parse_rvn_list(stdout: &str) -> (r: NameSet)
    ensures
        r@ == listed_names(lines(stdout@)).to_set(),
{
    let chars = chars_of(stdout);
    let all = lines_of(&chars);
    let ghost every = texts(all@);
    let mut names: Vec<String> = Vec::new();
    let mut i: usize = 0;
    assert(names.deep_view() =~= Seq::empty());
    while i < all.len()
        invariant
            i <= all.len(),
            every == texts(all@),
            every == lines(stdout@),
            names.deep_view() == listed_names(every.take(i as int)),
        decreases all.len() - i,
    {
        assert(every.take(i + 1).drop_last() =~= every.take(i as int));
        assert(every.take(i + 1).last() == all@[i as int]@);
        let ghost before = names.deep_view();
        if let Some(event) = read_json(&string_of(all[i])) {
            let mut found = packages_in(&event);
            let ghost more = found.deep_view();
            names.append(&mut found);
            assert(names.deep_view() =~= before + more);
        } else {
            assert(before =~= before + Seq::empty());
        }
        i = i + 1;
    }
    assert(every.take(i as int) =~= every);
    NameSet::of(&names)
}

/// The package that a directory of the local database belongs to: its name without the version and
/// the release, which the last two hyphens set off.
pub open spec fn directory_package(dir: Seq<char>) -> Option<Seq<char>> {
    match rsplit_once(dir, '-') {
        Some((without_release, _)) => match rsplit_once(without_release, '-') {
            Some((name, _)) => if name.len() > 0 {
                Some(name)
            } else {
                None
            },
            None => None,
        },
        None => None,
    }
}

/// The package that a directory of the local database belongs to.
pub fn strip_package_version(dir: &str) -> (r: Option<String>)
    ensures
        r.deep_view() == directory_package(dir@),
{
    let dir = chars_of(dir);
    match cut_last(&dir, '-') {
        Some((without_release, _)) => match cut_last(without_release, '-') {
            Some((name, _)) => if name.len() > 0 {
                Some(string_of(name))
            } else {
                None
            },
            None => None,
        },
        None => None,
    }
}

/// The packages that the directories of the local database belong to.
pub open spec fn database_packages(directories: Seq<Seq<char>>) -> Set<Seq<char>> {
    directories.filter_map(|d: Seq<char>| directory_package(d)).to_set()
}

fn local_database_packages(directories: &Vec<String>) -> (r: NameSet)
    ensures
        r@ == database_packages(directories.deep_view()),
{
    let ghost every = directories.deep_view();
    let ghost f = |d: Seq<char>| directory_package(d);
    let mut names: Vec<String> = Vec::new();
    let mut i: usize = 0;
    while i < directories.len()
        invariant
            i <= directories.len(),
            every == directories.deep_view(),
            f == (|d: Seq<char>| directory_package(d)),
            names.deep_view() == every.take(i as int).filter_map(f),
        decreases directories.len() - i,
    {
        proof {
            lemma_filter_map_step(every, i as int, f);
        }
        let ghost before = names.deep_view();
        if let Some(name) = strip_package_version(&directories[i]) {
            let ghost n = name@;
            names.push(name);
            assert(names.deep_view() =~= before.push(n));
        }
        i = i + 1;
    }
    assert(every.take(i as int) =~= every);
    NameSet::of(&names)
}

/// Every installed package: what rvn listed, where it ran and listed anything, and otherwise what
/// the directories of the local database say.
pub fn installed_packages(listing: Option<&str>, directories: &Vec<String>) -> (r: NameSet)
    ensures
        r@ == (match listing.deep_view() {
            Some(out) => {
                let listed = listed_names(lines(out)).to_set();
                if listed.len() > 0 {
                    listed
                } else {
                    database_packages(directories.deep_view())
                }
            },
            None => database_packages(directories.deep_view()),
        }),
{
    if let Some(out) = listing {
        let names = parse_rvn_list(out);
        if !names.is_empty() {
            return names;
        }
    }
    local_database_packages(directories)
}

/// A process, by its directory in `/proc` and the name the kernel keeps for it.
#[derive(Debug)]
pub struct Process {
    pub directory: String,
    pub comm: Option<String>,
}

impl DeepView for Process {
    type V = (Seq<char>, Option<Seq<char>>);

    open spec fn deep_view(&self) -> (Seq<char>, Option<Seq<char>>) {
        (self.directory@, self.comm.deep_view())
    }
}

/// An entry of `/proc` is a process of that name.
pub open spec fn is_process(entry: (Seq<char>, Option<Seq<char>>), name: Seq<char>) -> bool {
    all_digits(entry.0) && entry.1 is Some && trim(entry.1->0) == name
}

/// Whether a process with this executable name is running, among the entries of `/proc`.
pub fn process_running(name: &str, entries: &Vec<Process>) -> (r: bool)
    ensures
        r == exists|i: int|
            0 <= i < entries.deep_view().len() && is_process(
                #[trigger] entries.deep_view()[i],
                name@,
            ),
{
    let mut i: usize = 0;
    while i < entries.len()
        invariant
            i <= entries.len(),
            forall|j: int| 0 <= j < i ==> !is_process(#[trigger] entries.deep_view()[j], name@),
        decreases entries.len() - i,
    {
        let entry = &entries[i];
        assert(entries.deep_view()[i as int] == entry.deep_view());
        if only_digits(&chars_of(&entry.directory)) {
            if let Some(comm) = &entry.comm {
                if reads(trimmed(&chars_of(comm)), name) {
                    return true;
                }
            }
        }
        i = i + 1;
    }
    false
}

/// Where a command may stand: in each directory of the search path, in turn.
pub open spec fn command_places(command: Seq<char>, path: Option<Seq<char>>) -> Seq<Seq<char>> {
    match path {
        Some(dirs) => split(dirs, ':').map_values(|dir: Seq<char>| join(dir, command)),
        None => Seq::empty(),
    }
}

/// Where a command may stand, given the search path.
pub fn command_candidates(command: &str, path: Option<&str>) -> (r: Vec<String>)
    ensures
        r.deep_view() == command_places(command@, path.deep_view()),
{
    let mut out: Vec<String> = Vec::new();
    match path {
        Some(p) => {
            let chars = chars_of(p);
            let dirs = pieces(&chars, ':');
            let ghost every = texts(dirs@);
            let mut i: usize = 0;
            while i < dirs.len()
                invariant
                    i <= dirs.len(),
                    every == texts(dirs@),
                    out.deep_view() == every.take(i as int).map_values(
                        |dir: Seq<char>| join(dir, command@),
                    ),
                decreases dirs.len() - i,
            {
                let ghost before = out.deep_view();
                assert(every[i as int] == dirs@[i as int]@);
                out.push(joined_path(&string_of(dirs[i]), command));
                assert(out.deep_view() =~= before.push(join(every[i as int], command@)));
                i = i + 1;
                assert(out.deep_view() =~= every.take(i as int).map_values(
                    |dir: Seq<char>| join(dir, command@),
                ));
            }
            assert(every.take(i as int) =~= every);
            out
        },
        None => {
            assert(out.deep_view() =~= Seq::empty());
            out
        },
    }
}

/// The file that a command stands for: the first of its places that is one.
pub fn which(command: &str, path: Option<&str>, files: &NameSet) -> (r: Option<String>)
    ensures
        r.deep_view() == crate::lists::first_where(
            command_places(command@, path.deep_view()),
            |place: Seq<char>| files@.contains(place),
        ),
{
    let places = command_candidates(command, path);
    let ghost every = places.deep_view();
    let ghost p = |place: Seq<char>| files@.contains(place);
    let mut i: usize = 0;
    while i < places.len()
        invariant
            i <= places.len(),
            every == places.deep_view(),
            every == command_places(command@, path.deep_view()),
            p == (|place: Seq<char>| files@.contains(place)),
            forall|j: int| 0 <= j < i ==> !p(#[trigger] every[j]),
        decreases places.len() - i,
    {
        assert(every[i as int] == places@[i as int]@);
        if files.contains(&places[i]) {
            proof {
                crate::lists::lemma_first_is(every, p, i as int);
            }
            return Some(places[i].clone());
        }
        i = i + 1;
    }
    proof {
        crate::lists::lemma_first_none(every, p);
    }
    None
}

// ---------------------------------------------------------------------------
// A plain-language verdict
// ---------------------------------------------------------------------------

/// What to tell someone about one card, in one line each.
#[derive(Debug, Clone, PartialEq, Eq)]
pub struct Verdict {
    pub headline: String,
    pub detail: String,
    pub good: bool,
}

/// What a verdict says.
#[verifier::ext_equal]
pub struct VerdictModel {
    pub headline: Seq<char>,
    pub detail: Seq<char>,
    pub good: bool,
}

impl DeepView for Verdict {
    type V = VerdictModel;

    open spec fn deep_view(&self) -> VerdictModel {
        VerdictModel { headline: self.headline@, detail: self.detail@, good: self.good }
    }
}

/// Some packages as the subject of a sentence.
pub open spec fn package_list(names: Seq<Seq<char>>) -> Seq<char> {
    if names.len() == 1 {
        names[0] + " is"@
    } else if names.len() == 2 {
        names[0] + " and "@ + names[1] + " are"@
    } else {
        names[0] + " and "@ + decimal(names.len() - 1) + " more are"@
    }
}

/// The packages that a game will not start without.
pub open spec fn essential_packages(missing: Seq<RequirementModel>) -> Seq<Seq<char>> {
    missing.filter_map(
        |r: RequirementModel|
            if r.essential {
                Some(r.package)
            } else {
                None
            },
    )
}

/// What is said of a card, given what its machine is missing.
pub open spec fn verdict_of(g: GpuModel, missing: Seq<RequirementModel>) -> VerdictModel {
    let essential = essential_packages(missing);
    if g.driver is Unbound {
        VerdictModel {
            headline: "No driver is loaded"@,
            detail: "Nothing is driving this "@ + vendor_name(g.vendor)
                + " card, so it cannot render anything. Installing its driver is the first thing to do."@,
            good: false,
        }
    } else if g.driver is Nouveau {
        VerdictModel {
            headline: "Running on Nouveau"@,
            detail: "Nouveau is the community driver. It draws the desktop, but it cannot clock this card up, so games run at a fraction of the speed they should. NVIDIA's own driver is the fix."@,
            good: false,
        }
    } else if essential.len() > 0 {
        VerdictModel {
            headline: "The driver is half installed"@,
            detail: "The kernel side is fine, but "@ + package_list(essential)
                + " missing. Games that need "@ + (if essential.len() == 1 {
                "it"@
            } else {
                "them"@
            }) + " will fail to start."@,
            good: false,
        }
    } else {
        VerdictModel {
            headline: "Ready — "@ + driver_label(g.driver),
            detail: "The kernel driver and the graphics libraries are both in place."@,
            good: true,
        }
    }
}

/// What is known of each requirement of a list.
pub open spec fn requirement_models(s: Seq<Requirement>) -> Seq<RequirementModel> {
    Seq::new(s.len(), |i: int| s[i].deep_view())
}

fn list_packages(names: &Vec<String>) -> (r: String)
    requires
        names@.len() > 0,
    ensures
        r@ == package_list(names.deep_view()),
{
    assert(names.deep_view()[0] == names@[0]@);
    if names.len() == 1 {
        cat2(&names[0], " is")
    } else if names.len() == 2 {
        assert(names.deep_view()[1] == names@[1]@);
        cat4(&names[0], " and ", &names[1], " are")
    } else {
        cat4(&names[0], " and ", &decimal_of((names.len() - 1) as u64), " more are")
    }
}

fn essential_of(missing: &[Requirement]) -> (r: Vec<String>)
    ensures
        r.deep_view() == essential_packages(requirement_models(missing@)),
{
    let ghost every = requirement_models(missing@);
    let ghost f = |r: RequirementModel|
        if r.essential {
            Some(r.package)
        } else {
            None
        };
    let mut out: Vec<String> = Vec::new();
    let mut i: usize = 0;
    while i < missing.len()
        invariant
            i <= missing.len(),
            every == requirement_models(missing@),
            f == (|r: RequirementModel|
                if r.essential {
                    Some(r.package)
                } else {
                    None
                }),
            out.deep_view() == every.take(i as int).filter_map(f),
        decreases missing.len() - i,
    {
        proof {
            lemma_filter_map_step(every, i as int, f);
            assert(every[i as int] == missing@[i as int].deep_view());
        }
        let ghost before = out.deep_view();
        if missing[i].essential {
            out.push(missing[i].package.clone());
            assert(out.deep_view() =~= before.push(every[i as int].package));
        }
        i = i + 1;
    }
    assert(every.take(i as int) =~= every);
    out
}

/// What to tell someone about one card.
pub fn verdict(gpu: &Gpu, missing: &[Requirement]) -> (r: Verdict)
    ensures
        r.deep_view() == verdict_of(gpu.deep_view(), requirement_models(missing@)),
{
    let essential = essential_of(missing);
    match gpu.driver {
        DriverKind::Unbound => Verdict {
            headline: String::from_str("No driver is loaded"),
            detail: cat3(
                "Nothing is driving this ",
                gpu.vendor.name(),
                " card, so it cannot render anything. Installing its driver is the first thing to do.",
            ),
            good: false,
        },
        DriverKind::Nouveau => Verdict {
            headline: String::from_str("Running on Nouveau"),
            detail: String::from_str(
                "Nouveau is the community driver. It draws the desktop, but it cannot clock this card up, so games run at a fraction of the speed they should. NVIDIA's own driver is the fix.",
            ),
            good: false,
        },
        _ => if essential.len() > 0 {
            Verdict {
                headline: String::from_str("The driver is half installed"),
                detail: cat5(
                    "The kernel side is fine, but ",
                    &list_packages(&essential),
                    " missing. Games that need ",
                    if essential.len() == 1 {
                        "it"
                    } else {
                        "them"
                    },
                    " will fail to start.",
                ),
                good: false,
            }
        } else {
            Verdict {
                headline: cat2("Ready — ", gpu.driver.label()),
                detail: String::from_str(
                    "The kernel driver and the graphics libraries are both in place.",
                ),
                good: true,
            }
        },
    }
}

// ---------------------------------------------------------------------------
// Laws
// ---------------------------------------------------------------------------

/// Kernels can be ranked: of two one comes no later, and the order is transitive.
pub proof fn kernels_can_be_ranked()
    ensures
        ranks(|a: KernelModel, b: KernelModel| <Kernel as Ranked>::le(a, b)),
{
    let le = |a: KernelModel, b: KernelModel| <Kernel as Ranked>::le(a, b);
    assert forall|a: KernelModel, b: KernelModel| #[trigger] le(a, b) || le(b, a) by {
        text_le_total(a.release, b.release);
    }
    assert forall|a: KernelModel, b: KernelModel, c: KernelModel| #[trigger]
        le(a, b) && #[trigger] le(b, c) implies le(a, c) by {
        if a.running == b.running && b.running == c.running {
            text_le_transitive(a.release, b.release, c.release);
        }
    }
}

/// The list of kernels holds every kernel that was found and no other, the running one first and
/// the rest by release.
pub proof fn the_running_kernel_comes_first(found: Seq<KernelModel>)
    ensures
        by_rank::<Kernel>(found).to_multiset() == found.to_multiset(),
        forall|i: int, j: int|
            0 <= i < j < by_rank::<Kernel>(found).len() ==> {
                let a = #[trigger] by_rank::<Kernel>(found)[i];
                let b = #[trigger] by_rank::<Kernel>(found)[j];
                (b.running ==> a.running) && (a.running == b.running ==> text_le(
                    a.release,
                    b.release,
                ))
            },
{
    let le = |a: KernelModel, b: KernelModel| <Kernel as Ranked>::le(a, b);
    kernels_can_be_ranked();
    sorting_orders(found, le);
    let out = by_rank::<Kernel>(found);
    assert(in_order(out, le));
    assert forall|i: int, j: int| 0 <= i < j < out.len() implies {
        let a = #[trigger] out[i];
        let b = #[trigger] out[j];
        (b.running ==> a.running) && (a.running == b.running ==> text_le(a.release, b.release))
    } by {
        assert(le(out[i], out[j]));
    }
}

proof fn lemma_unrepeated(s: Seq<RequirementModel>)
    ensures
        forall|p: Seq<char>| #[trigger] asks_for(unrepeated(s), p) <==> asks_for(s, p),
        forall|i: int, j: int|
            0 <= i < unrepeated(s).len() && 0 <= j < unrepeated(s).len() && i != j ==> (
            #[trigger] unrepeated(s)[i]).package != (#[trigger] unrepeated(s)[j]).package,
    decreases s.len(),
{
    if s.len() > 0 {
        let t = s.drop_last();
        let u = unrepeated(t);
        lemma_unrepeated(t);
        assert forall|p: Seq<char>| #[trigger]
            asks_for(unrepeated(s), p) <==> asks_for(s, p) by {
            if asks_for(s, p) {
                let k = choose|k: int| 0 <= k < s.len() && (#[trigger] s[k]).package == p;
                if k < t.len() {
                    assert(t[k].package == p);
                    assert(asks_for(t, p));
                }
                if asks_for(t, p) {
                    assert(asks_for(u, p));
                    let m = choose|m: int| 0 <= m < u.len() && (#[trigger] u[m]).package == p;
                    assert(unrepeated(s)[m].package == p);
                } else {
                    assert(p == s.last().package);
                    assert(unrepeated(s)[u.len() as int].package == p);
                }
            }
            if asks_for(unrepeated(s), p) {
                let k = choose|k: int|
                    0 <= k < unrepeated(s).len() && (#[trigger] unrepeated(s)[k]).package == p;
                if k < u.len() {
                    assert(u[k].package == p);
                    assert(asks_for(u, p));
                    assert(asks_for(t, p));
                    let m = choose|m: int| 0 <= m < t.len() && (#[trigger] t[m]).package == p;
                    assert(s[m].package == p);
                } else {
                    assert(s[s.len() - 1].package == p);
                }
            }
        }
        if !asks_for(t, s.last().package) {
            assert(!asks_for(u, s.last().package));
        }
    }
}

/// No package is recommended twice, however many cards ask for it.
pub proof fn requirements_do_not_repeat(
    gpus: Seq<GpuModel>,
    installed: spec_fn(Seq<char>) -> bool,
    i: int,
    j: int,
)
    requires
        0 <= i < j < requirements_of(gpus, installed).len(),
    ensures
        requirements_of(gpus, installed)[i].package != requirements_of(gpus, installed)[j].package,
{
    let wanted = unrepeated(needs_of_cards(gpus, installed) + common_needs());
    lemma_unrepeated(needs_of_cards(gpus, installed) + common_needs());
    lemma_filter_keeps_distinct(wanted, |r: RequirementModel| !installed(r.package), i, j);
}

proof fn lemma_filter_keeps_distinct(
    s: Seq<RequirementModel>,
    p: spec_fn(RequirementModel) -> bool,
    i: int,
    j: int,
)
    requires
        forall|a: int, b: int|
            0 <= a < s.len() && 0 <= b < s.len() && a != b ==> (#[trigger] s[a]).package != (
            #[trigger] s[b]).package,
        0 <= i < j < s.filter(p).len(),
    ensures
        s.filter(p)[i].package != s.filter(p)[j].package,
    decreases s.len(),
{
    reveal(Seq::filter);
    if s.len() > 0 {
        let t = s.drop_last();
        assert forall|a: int, b: int|
            0 <= a < t.len() && 0 <= b < t.len() && a != b implies (#[trigger] t[a]).package != (
        #[trigger] t[b]).package by {
            assert(s[a].package != s[b].package);
        }
        if j < t.filter(p).len() {
            lemma_filter_keeps_distinct(t, p, i, j);
        } else {
            lemma_filter_members(t, p);
            let x = t.filter(p)[i];
            assert(t.filter(p).contains(x));
            assert(t.contains(x));
            let k = choose|k: int| 0 <= k < t.len() && t[k] == x;
            assert(s[k].package != s[s.len() - 1].package);
        }
    }
}

/// Nothing that is installed is recommended.
pub proof fn requirements_are_missing(
    gpus: Seq<GpuModel>,
    installed: spec_fn(Seq<char>) -> bool,
    i: int,
)
    requires
        0 <= i < requirements_of(gpus, installed).len(),
    ensures
        !installed(requirements_of(gpus, installed)[i].package),
{
    let wanted = unrepeated(needs_of_cards(gpus, installed) + common_needs());
    let p = |r: RequirementModel| !installed(r.package);
    lemma_filter_members(wanted, p);
    assert(wanted.filter(p).contains(wanted.filter(p)[i]));
}

/// Whatever a game needs on any machine and is not installed is recommended on every machine.
pub proof fn the_loaders_are_always_wanted(
    gpus: Seq<GpuModel>,
    installed: spec_fn(Seq<char>) -> bool,
)
    ensures
        !installed("vulkan-icd-loader"@) ==> asks_for(
            requirements_of(gpus, installed),
            "vulkan-icd-loader"@,
        ),
        !installed("lib32-vulkan-icd-loader"@) ==> asks_for(
            requirements_of(gpus, installed),
            "lib32-vulkan-icd-loader"@,
        ),
{
    let base = needs_of_cards(gpus, installed) + common_needs();
    let n = needs_of_cards(gpus, installed).len() as int;
    assert(base[n].package == "vulkan-icd-loader"@);
    assert(base[n + 1].package == "lib32-vulkan-icd-loader"@);
    if !installed("vulkan-icd-loader"@) {
        lemma_wanted_is_recommended(base, installed, "vulkan-icd-loader"@);
    }
    if !installed("lib32-vulkan-icd-loader"@) {
        lemma_wanted_is_recommended(base, installed, "lib32-vulkan-icd-loader"@);
    }
}

proof fn lemma_wanted_is_recommended(
    base: Seq<RequirementModel>,
    installed: spec_fn(Seq<char>) -> bool,
    package: Seq<char>,
)
    requires
        asks_for(base, package),
        !installed(package),
    ensures
        asks_for(unrepeated(base).filter(|r: RequirementModel| !installed(r.package)), package),
{
    let u = unrepeated(base);
    let p = |r: RequirementModel| !installed(r.package);
    lemma_unrepeated(base);
    assert(asks_for(u, package));
    let k = choose|k: int| 0 <= k < u.len() && (#[trigger] u[k]).package == package;
    lemma_filter_members(u, p);
    assert(u.filter(p).contains(u[k]));
    let m = choose|m: int| 0 <= m < u.filter(p).len() && u.filter(p)[m] == u[k];
    assert(u.filter(p)[m].package == package);
}

/// A card with nothing bound, or on Nouveau, is never called ready, whatever is installed.
pub proof fn a_card_without_a_driver_is_never_ready(g: GpuModel, missing: Seq<RequirementModel>)
    requires
        g.driver is Unbound || g.driver is Nouveau,
    ensures
        !verdict_of(g, missing).good,
{
}

/// With no module known to dkms there is nothing to rebuild.
pub proof fn no_modules_nothing_to_rebuild(kernels: Seq<KernelModel>)
    ensures
        missing_kernels(Seq::empty(), kernels).len() == 0,
    decreases kernels.len(),
{
    if kernels.len() > 0 {
        no_modules_nothing_to_rebuild(kernels.drop_last());
    }
}

proof fn lemma_asked_of_cards(
    gpus: Seq<GpuModel>,
    installed: spec_fn(Seq<char>) -> bool,
    package: Seq<char>,
)
    ensures
        asks_for(needs_of_cards(gpus, installed), package) <==> exists|k: int|
            0 <= k < gpus.len() && asks_for(needs_of(#[trigger] gpus[k], installed), package),
    decreases gpus.len(),
{
    if gpus.len() > 0 {
        let init = gpus.drop_last();
        lemma_asked_of_cards(init, installed, package);
        lemma_asked_of_either(
            needs_of_cards(init, installed),
            needs_of(gpus.last(), installed),
            package,
        );
        if exists|k: int|
            0 <= k < init.len() && asks_for(needs_of(#[trigger] init[k], installed), package) {
            let k = choose|k: int|
                0 <= k < init.len() && asks_for(needs_of(#[trigger] init[k], installed), package);
            assert(gpus[k] == init[k]);
        }
        if exists|k: int|
            0 <= k < gpus.len() && asks_for(needs_of(#[trigger] gpus[k], installed), package) {
            let k = choose|k: int|
                0 <= k < gpus.len() && asks_for(needs_of(#[trigger] gpus[k], installed), package);
            if k < init.len() {
                assert(init[k] == gpus[k]);
            }
        }
    }
}

proof fn lemma_asked_of_either(
    a: Seq<RequirementModel>,
    b: Seq<RequirementModel>,
    package: Seq<char>,
)
    ensures
        asks_for(a + b, package) <==> asks_for(a, package) || asks_for(b, package),
{
    if asks_for(a + b, package) {
        let i = choose|i: int| 0 <= i < (a + b).len() && (#[trigger] (a + b)[i]).package == package;
        if i < a.len() {
            assert(a[i].package == package);
        } else {
            assert(b[i - a.len()].package == package);
        }
    }
    if asks_for(a, package) {
        let i = choose|i: int| 0 <= i < a.len() && (#[trigger] a[i]).package == package;
        assert((a + b)[i].package == package);
    }
    if asks_for(b, package) {
        let i = choose|i: int| 0 <= i < b.len() && (#[trigger] b[i]).package == package;
        assert((a + b)[a.len() + i].package == package);
    }
}

proof fn lemma_recommended(
    gpus: Seq<GpuModel>,
    installed: spec_fn(Seq<char>) -> bool,
    package: Seq<char>,
)
    ensures
        asks_for(requirements_of(gpus, installed), package) <==> !installed(package) && (package
            == "vulkan-icd-loader"@ || package == "lib32-vulkan-icd-loader"@ || exists|k: int|
            0 <= k < gpus.len() && asks_for(needs_of(#[trigger] gpus[k], installed), package)),
{
    let base = needs_of_cards(gpus, installed) + common_needs();
    let p = |r: RequirementModel| !installed(r.package);
    let u = unrepeated(base);
    lemma_unrepeated(base);
    lemma_filter_members(u, p);
    lemma_asked_of_cards(gpus, installed, package);
    lemma_asked_of_either(needs_of_cards(gpus, installed), common_needs(), package);
    assert(common_needs()[0].package == "vulkan-icd-loader"@);
    assert(common_needs()[1].package == "lib32-vulkan-icd-loader"@);
    assert(asks_for(common_needs(), package) <==> package == "vulkan-icd-loader"@ || package
        == "lib32-vulkan-icd-loader"@);
    assert(asks_for(u, package) <==> asks_for(base, package));
    if asks_for(requirements_of(gpus, installed), package) {
        let out = u.filter(p);
        let i = choose|i: int| 0 <= i < out.len() && (#[trigger] out[i]).package == package;
        assert(out.contains(out[i]));
        assert(u.contains(out[i]));
        let m = choose|m: int| 0 <= m < u.len() && u[m] == out[i];
        assert(u[m].package == package);
    }
    if !installed(package) && asks_for(base, package) {
        lemma_wanted_is_recommended(base, installed, package);
    }
}

proof fn lemma_packages_differ()
    ensures
        forall|i: int, j: int|
            0 <= i < j < 11 ==> #[trigger] known_packages()[i] != #[trigger] known_packages()[j],
{
    reveal_strlit("nvidia-open-dkms");
    reveal_strlit("nvidia-dkms");
    reveal_strlit("nvidia-utils");
    reveal_strlit("lib32-nvidia-utils");
    reveal_strlit("vulkan-radeon");
    reveal_strlit("lib32-vulkan-radeon");
    reveal_strlit("lib32-mesa");
    reveal_strlit("vulkan-intel");
    reveal_strlit("lib32-vulkan-intel");
    reveal_strlit("vulkan-icd-loader");
    reveal_strlit("lib32-vulkan-icd-loader");
    let all = known_packages();
    assert(all[0].len() == 16 && all[1].len() == 11 && all[2].len() == 12 && all[3].len() == 18);
    assert(all[4].len() == 13 && all[5].len() == 19 && all[6].len() == 10 && all[7].len() == 12);
    assert(all[8].len() == 18 && all[9].len() == 17 && all[10].len() == 23);
    assert(all[2][0] != all[7][0]);
    assert(all[3][6] != all[8][6]);
    assert forall|i: int, j: int| 0 <= i < j < 11 implies #[trigger] all[i] != #[trigger] all[j] by {
        if all[i].len() == all[j].len() {
            assert((i == 2 && j == 7) || (i == 3 && j == 8));
        }
    }
}

spec fn known_packages() -> Seq<Seq<char>> {
    seq![
        "nvidia-open-dkms"@,
        "nvidia-dkms"@,
        "nvidia-utils"@,
        "lib32-nvidia-utils"@,
        "vulkan-radeon"@,
        "lib32-vulkan-radeon"@,
        "lib32-mesa"@,
        "vulkan-intel"@,
        "lib32-vulkan-intel"@,
        "vulkan-icd-loader"@,
        "lib32-vulkan-icd-loader"@,
    ]
}

proof fn lemma_asked_of_one(g: GpuModel, installed: spec_fn(Seq<char>) -> bool, package: Seq<char>)
    ensures
        asks_for(needs_of(g, installed), package) <==> match g.vendor {
            Vendor::Nvidia => package == "nvidia-utils"@ || package == "lib32-nvidia-utils"@ || (package
                == nvidia_module(g.device_id) && !installed(package) && !installed("nvidia-open"@)
                && !installed("nvidia"@)),
            Vendor::Amd => package == "vulkan-radeon"@ || package == "lib32-vulkan-radeon"@ || package
                == "lib32-mesa"@,
            Vendor::Intel => package == "vulkan-intel"@ || package == "lib32-vulkan-intel"@,
            Vendor::Other => false,
        },
{
    let all = needs_of(g, installed);
    match g.vendor {
        Vendor::Nvidia => {
            let n = all.len() as int;
            assert(all[n - 2].package == "nvidia-utils"@);
            assert(all[n - 1].package == "lib32-nvidia-utils"@);
            if n == 3 {
                assert(all[0].package == nvidia_module(g.device_id));
            }
        },
        Vendor::Amd => {
            assert(all[0].package == "vulkan-radeon"@);
            assert(all[1].package == "lib32-vulkan-radeon"@);
            assert(all[2].package == "lib32-mesa"@);
        },
        Vendor::Intel => {
            assert(all[0].package == "vulkan-intel"@);
            assert(all[1].package == "lib32-vulkan-intel"@);
        },
        Vendor::Other => {},
    }
}

/// A machine has a card of a vendor.
pub open spec fn has_card_of(gpus: Seq<GpuModel>, vendor: Vendor) -> bool {
    exists|k: int| 0 <= k < gpus.len() && (#[trigger] gpus[k]).vendor == vendor
}

/// The kernel driver that is recommended for one of NVIDIA's cards is the open one for a card of the
/// Turing generation or later, whose device IDs begin at `0x1e00`, and the proprietary one for an
/// older card, which the open one does not drive. It is recommended for such a card, and only for
/// one, unless it or a module built with the kernel is installed.
pub proof fn every_nvidia_card_gets_the_driver_that_drives_it(
    gpus: Seq<GpuModel>,
    installed: spec_fn(Seq<char>) -> bool,
)
    ensures
        asks_for(requirements_of(gpus, installed), "nvidia-open-dkms"@) <==> !installed(
            "nvidia-open-dkms"@,
        ) && !installed("nvidia-open"@) && !installed("nvidia"@) && exists|k: int|
            0 <= k < gpus.len() && (#[trigger] gpus[k]).vendor == Vendor::Nvidia && gpus[k].device_id
                >= 0x1e00,
        asks_for(requirements_of(gpus, installed), "nvidia-dkms"@) <==> !installed("nvidia-dkms"@)
            && !installed("nvidia-open"@) && !installed("nvidia"@) && exists|k: int|
            0 <= k < gpus.len() && (#[trigger] gpus[k]).vendor == Vendor::Nvidia && gpus[k].device_id
                < 0x1e00,
{
    let open = "nvidia-open-dkms"@;
    let closed_one = "nvidia-dkms"@;
    lemma_recommended(gpus, installed, open);
    lemma_recommended(gpus, installed, closed_one);
    lemma_packages_differ();
    lemma_known_differ(0);
    lemma_known_differ(1);
    assert forall|k: int| 0 <= k < gpus.len() implies (asks_for(
        needs_of(#[trigger] gpus[k], installed),
        open,
    ) <==> gpus[k].vendor == Vendor::Nvidia && gpus[k].device_id >= 0x1e00 && !installed(open)
        && !installed("nvidia-open"@) && !installed("nvidia"@)) && (asks_for(
        needs_of(gpus[k], installed),
        closed_one,
    ) <==> gpus[k].vendor == Vendor::Nvidia && gpus[k].device_id < 0x1e00 && !installed(closed_one)
        && !installed("nvidia-open"@) && !installed("nvidia"@)) by {
        lemma_asked_of_one(gpus[k], installed, open);
        lemma_asked_of_one(gpus[k], installed, closed_one);
    }
}

proof fn lemma_known_differ(i: int)
    requires
        0 <= i < 11,
    ensures
        forall|j: int| 0 <= j < 11 && j != i ==> known_packages()[i] != #[trigger] known_packages()[j],
        known_packages()[0] == "nvidia-open-dkms"@,
        known_packages()[1] == "nvidia-dkms"@,
        known_packages()[2] == "nvidia-utils"@,
        known_packages()[3] == "lib32-nvidia-utils"@,
        known_packages()[4] == "vulkan-radeon"@,
        known_packages()[5] == "lib32-vulkan-radeon"@,
        known_packages()[6] == "lib32-mesa"@,
        known_packages()[7] == "vulkan-intel"@,
        known_packages()[8] == "lib32-vulkan-intel"@,
        known_packages()[9] == "vulkan-icd-loader"@,
        known_packages()[10] == "lib32-vulkan-icd-loader"@,
{
    lemma_packages_differ();
    assert forall|j: int| 0 <= j < 11 && j != i implies known_packages()[i] != #[trigger] known_packages()[j] by {
        if j < i {
            assert(known_packages()[j] != known_packages()[i]);
        } else {
            assert(known_packages()[i] != known_packages()[j]);
        }
    }
}

/// Each vendor's libraries are recommended where they are missing and the machine has a card of the
/// vendor, and only there: NVIDIA's own libraries and Mesa's Vulkan drivers, in 64 and in 32 bits. The
/// loaders are recommended on every machine that lacks them, and nothing else is on any.
pub proof fn every_vendor_gets_its_libraries(
    gpus: Seq<GpuModel>,
    installed: spec_fn(Seq<char>) -> bool,
    package: Seq<char>,
)
    ensures
        asks_for(requirements_of(gpus, installed), "nvidia-utils"@) <==> !installed("nvidia-utils"@)
            && has_card_of(gpus, Vendor::Nvidia),
        asks_for(requirements_of(gpus, installed), "lib32-nvidia-utils"@) <==> !installed(
            "lib32-nvidia-utils"@,
        ) && has_card_of(gpus, Vendor::Nvidia),
        asks_for(requirements_of(gpus, installed), "vulkan-radeon"@) <==> !installed("vulkan-radeon"@)
            && has_card_of(gpus, Vendor::Amd),
        asks_for(requirements_of(gpus, installed), "lib32-vulkan-radeon"@) <==> !installed(
            "lib32-vulkan-radeon"@,
        ) && has_card_of(gpus, Vendor::Amd),
        asks_for(requirements_of(gpus, installed), "lib32-mesa"@) <==> !installed("lib32-mesa"@)
            && has_card_of(gpus, Vendor::Amd),
        asks_for(requirements_of(gpus, installed), "vulkan-intel"@) <==> !installed("vulkan-intel"@)
            && has_card_of(gpus, Vendor::Intel),
        asks_for(requirements_of(gpus, installed), "lib32-vulkan-intel"@) <==> !installed(
            "lib32-vulkan-intel"@,
        ) && has_card_of(gpus, Vendor::Intel),
        asks_for(requirements_of(gpus, installed), "vulkan-icd-loader"@) <==> !installed(
            "vulkan-icd-loader"@,
        ),
        asks_for(requirements_of(gpus, installed), "lib32-vulkan-icd-loader"@) <==> !installed(
            "lib32-vulkan-icd-loader"@,
        ),
        asks_for(requirements_of(gpus, installed), package) ==> package == "nvidia-open-dkms"@ || package
            == "nvidia-dkms"@ || package == "nvidia-utils"@ || package == "lib32-nvidia-utils"@ || package
            == "vulkan-radeon"@ || package == "lib32-vulkan-radeon"@ || package == "lib32-mesa"@ || package
            == "vulkan-intel"@ || package == "lib32-vulkan-intel"@ || package == "vulkan-icd-loader"@
            || package == "lib32-vulkan-icd-loader"@,
{
    let known = known_packages();
    lemma_known_differ(0);
    assert forall|n: int| 2 <= n < 11 implies (#[trigger] asks_for(
        requirements_of(gpus, installed),
        known[n],
    ) <==> !installed(known[n]) && (n >= 9 || (n <= 3 && has_card_of(gpus, Vendor::Nvidia)) || (4 <= n
        <= 6 && has_card_of(gpus, Vendor::Amd)) || (7 <= n <= 8 && has_card_of(gpus, Vendor::Intel)))) by {
        lemma_recommended(gpus, installed, known[n]);
        lemma_known_differ(n);
        assert forall|k: int| 0 <= k < gpus.len() implies (asks_for(
            needs_of(#[trigger] gpus[k], installed),
            known[n],
        ) <==> (n <= 3 && gpus[k].vendor == Vendor::Nvidia) || (4 <= n <= 6 && gpus[k].vendor
            == Vendor::Amd) || (7 <= n <= 8 && gpus[k].vendor == Vendor::Intel)) by {
            lemma_asked_of_one(gpus[k], installed, known[n]);
            assert(known[n] != known[0] && known[n] != known[1]);
        }
    }
    assert(asks_for(requirements_of(gpus, installed), known[2]) || true);
    assert(asks_for(requirements_of(gpus, installed), known[3]) || true);
    assert(asks_for(requirements_of(gpus, installed), known[4]) || true);
    assert(asks_for(requirements_of(gpus, installed), known[5]) || true);
    assert(asks_for(requirements_of(gpus, installed), known[6]) || true);
    assert(asks_for(requirements_of(gpus, installed), known[7]) || true);
    assert(asks_for(requirements_of(gpus, installed), known[8]) || true);
    assert(asks_for(requirements_of(gpus, installed), known[9]) || true);
    assert(asks_for(requirements_of(gpus, installed), known[10]) || true);
    lemma_recommended(gpus, installed, package);
    if exists|k: int|
        0 <= k < gpus.len() && asks_for(needs_of(#[trigger] gpus[k], installed), package) {
        let k = choose|k: int|
            0 <= k < gpus.len() && asks_for(needs_of(#[trigger] gpus[k], installed), package);
        lemma_asked_of_one(gpus[k], installed, package);
    }
}

/// Everything that is recommended is essential but for the 32-bit OpenGL of older native games.
pub proof fn only_one_recommendation_is_optional(
    gpus: Seq<GpuModel>,
    installed: spec_fn(Seq<char>) -> bool,
    i: int,
)
    requires
        0 <= i < requirements_of(gpus, installed).len(),
    ensures
        requirements_of(gpus, installed)[i].essential <==> requirements_of(gpus, installed)[i].package
            != "lib32-mesa"@,
{
    let base = needs_of_cards(gpus, installed) + common_needs();
    let p = |r: RequirementModel| !installed(r.package);
    let u = unrepeated(base);
    let r = u.filter(p)[i];
    lemma_filter_members(u, p);
    assert(u.filter(p).contains(r));
    lemma_unrepeated_from(base, r);
    lemma_needs_are_essential(gpus, installed, r);
    lemma_known_differ(6);
}

proof fn lemma_unrepeated_from(s: Seq<RequirementModel>, r: RequirementModel)
    requires
        unrepeated(s).contains(r),
    ensures
        s.contains(r),
    decreases s.len(),
{
    let k = choose|k: int| 0 <= k < unrepeated(s).len() && unrepeated(s)[k] == r;
    if s.len() > 0 {
        let t = s.drop_last();
        if k < unrepeated(t).len() {
            assert(unrepeated(t)[k] == r);
            lemma_unrepeated_from(t, r);
            let m = choose|m: int| 0 <= m < t.len() && t[m] == r;
            assert(s[m] == r);
        } else {
            assert(s[s.len() - 1] == r);
        }
    }
}

proof fn lemma_needs_are_essential(
    gpus: Seq<GpuModel>,
    installed: spec_fn(Seq<char>) -> bool,
    r: RequirementModel,
)
    requires
        (needs_of_cards(gpus, installed) + common_needs()).contains(r),
    ensures
        r.essential <==> r.package != "lib32-mesa"@,
    decreases gpus.len(),
{
    lemma_known_differ(6);
    let all = needs_of_cards(gpus, installed) + common_needs();
    let k = choose|k: int| 0 <= k < all.len() && all[k] == r;
    let n = needs_of_cards(gpus, installed).len();
    if k >= n {
        assert(r == common_needs()[k - n]);
    } else {
        let init = gpus.drop_last();
        let before = needs_of_cards(init, installed);
        assert(gpus.len() > 0);
        if k < before.len() {
            assert((before + common_needs())[k] == r);
            lemma_needs_are_essential(init, installed, r);
        } else {
            assert(r == needs_of(gpus.last(), installed)[k - before.len()]);
            assert(known_packages()[0] != known_packages()[6]);
            assert(known_packages()[1] != known_packages()[6]);
        }
    }
}

/// No report says that a module is installed for a kernel.
pub open spec fn is_reported_missing(
    modules: Seq<DkmsModel>,
    name: Seq<char>,
    release: Seq<char>,
) -> bool {
    forall|j: int|
        0 <= j < modules.len() && (#[trigger] modules[j]).name == name && modules[j].kernel == release
            ==> modules[j].state != "installed"@
}

/// A kernel is called out exactly where it is on disk and some module that dkms knows is not reported
/// as installed for it.
pub proof fn a_kernel_left_behind_is_called_out(
    modules: Seq<DkmsModel>,
    kernels: Seq<KernelModel>,
    release: Seq<char>,
)
    ensures
        missing_kernels(modules, kernels).contains(release) <==> (exists|k: int|
            0 <= k < kernels.len() && (#[trigger] kernels[k]).release == release) && (exists|i: int|
            0 <= i < modules.len() && is_reported_missing(
                modules,
                (#[trigger] modules[i]).name,
                release,
            )),
{
    let f = |k: KernelModel|
        if lacks_a_module(modules, k.release) {
            Some(k.release)
        } else {
            None
        };
    crate::lists::lemma_picked(kernels, f, release);
    assert forall|name: Seq<char>| #[trigger] in_place(modules, name, release)
        == !is_reported_missing(modules, name, release) by {
        if !is_reported_missing(modules, name, release) {
            let j = choose|j: int|
                0 <= j < modules.len() && (#[trigger] modules[j]).name == name && modules[j].kernel
                    == release && modules[j].state == "installed"@;
            assert(in_place(modules, name, release));
        }
    }
    assert(lacks_a_module(modules, release) <==> exists|i: int|
        0 <= i < modules.len() && is_reported_missing(
            modules,
            (#[trigger] modules[i]).name,
            release,
        )) by {
        if lacks_a_module(modules, release) {
            let i = choose|i: int|
                0 <= i < modules.len() && !in_place(modules, (#[trigger] modules[i]).name, release);
            assert(is_reported_missing(modules, modules[i].name, release));
        }
        if exists|i: int|
            0 <= i < modules.len() && is_reported_missing(
                modules,
                (#[trigger] modules[i]).name,
                release,
            ) {
            let i = choose|i: int|
                0 <= i < modules.len() && is_reported_missing(
                    modules,
                    (#[trigger] modules[i]).name,
                    release,
                );
            assert(!in_place(modules, modules[i].name, release));
        }
    }
    if missing_kernels(modules, kernels).contains(release) {
        let k = choose|k: int| 0 <= k < kernels.len() && f(#[trigger] kernels[k]) == Some(release);
        assert(kernels[k].release == release);
    }
    if lacks_a_module(modules, release) && exists|k: int|
        0 <= k < kernels.len() && (#[trigger] kernels[k]).release == release {
        let k = choose|k: int| 0 <= k < kernels.len() && (#[trigger] kernels[k]).release == release;
        assert(f(kernels[k]) == Some(release));
    }
}

/// Every directory of modules that a kernel can be booted from is a kernel, and a stale one is not; the
/// one that is running is told by its release.
pub proof fn stale_directories_are_no_kernels(
    directories: Seq<ModuleDirectoryModel>,
    running: Seq<char>,
    k: KernelModel,
)
    ensures
        directories.filter_map(|d: ModuleDirectoryModel| kernel_in(d, running)).contains(k) <==> k.running
            == (k.release == running) && exists|i: int|
            0 <= i < directories.len() && (#[trigger] directories[i]).release == k.release && (
            directories[i].has_pkgbase || directories[i].has_modules_dep),
{
    let f = |d: ModuleDirectoryModel| kernel_in(d, running);
    crate::lists::lemma_picked(directories, f, k);
    if directories.filter_map(f).contains(k) {
        let i = choose|i: int| 0 <= i < directories.len() && f(#[trigger] directories[i]) == Some(k);
        assert(directories[i].release == k.release);
    }
    if k.running == (k.release == running) && exists|i: int|
        0 <= i < directories.len() && (#[trigger] directories[i]).release == k.release && (
        directories[i].has_pkgbase || directories[i].has_modules_dep) {
        let i = choose|i: int|
            0 <= i < directories.len() && (#[trigger] directories[i]).release == k.release && (
            directories[i].has_pkgbase || directories[i].has_modules_dep);
        assert(f(directories[i]) == Some(k));
    }
}

/// A text is a field of a status line: it has no white space at its ends, and holds no separator.
pub open spec fn is_field(s: Seq<char>) -> bool {
    s.len() > 0 && crate::text::is_tight(s) && !s.contains(',') && !s.contains(':') && !s.contains('/')
}

/// A line of `dkms status` is read in either of its formats: the module and its version, the kernel
/// and the state, whatever the architecture is.
pub proof fn dkms_lines_are_read_back(
    name: Seq<char>,
    version: Seq<char>,
    kernel: Seq<char>,
    arch: Seq<char>,
    state: Seq<char>,
)
    requires
        is_field(name),
        is_field(version),
        is_field(kernel),
        is_field(arch),
        is_field(state),
    ensures
        dkms_line(
            name.push('/') + version.push(',') + seq![' '] + kernel.push(',') + seq![' '] + arch.push(':')
                + seq![' '] + state,
        ) == Some(DkmsModel { name, version, kernel, state }),
        dkms_line(
            name.push(',') + seq![' '] + version.push(',') + seq![' '] + kernel.push(',') + seq![' ']
                + arch.push(':') + seq![' '] + state,
        ) == Some(DkmsModel { name, version, kernel, state }),
{
    let sp = seq![' '];
    let none = Seq::<char>::empty();
    // Three fields.
    let first = name.push('/') + version;
    let left = first.push(',') + sp + kernel.push(',') + sp + arch;
    let line = name.push('/') + version.push(',') + sp + kernel.push(',') + sp + arch.push(':') + sp
        + state;
    assert(line =~= left.push(':') + (sp + state));
    lemma_status_split(left, state, line);
    assert(!first.contains(',')) by {
        if first.contains(',') {
            let m = choose|m: int| 0 <= m < first.len() && first[m] == ',';
            if m < name.len() {
                assert(name[m] == ',');
            } else if m > name.len() {
                assert(version[m - name.len() - 1] == ',');
            }
        }
    }
    assert(left =~= first.push(',') + ((sp + kernel).push(',') + (sp + arch)));
    lemma_padded(kernel);
    lemma_padded(arch);
    lemma_padded(version);
    lemma_padded(name);
    crate::text::parts_come_apart(first, ',', (sp + kernel).push(',') + (sp + arch));
    crate::text::parts_come_apart(sp + kernel, ',', sp + arch);
    crate::text::parts_come_apart(sp + arch, ',', none);
    assert(split(left, ',') =~= seq![first, sp + kernel, sp + arch]);
    assert(first[0] == name[0] && first.last() == version.last());
    crate::text::tight_text_is_kept(first);
    let fields = fields_of(left);
    assert(fields.len() == 3 && fields[0] == first && fields[1] == kernel);
    crate::text::lemma_find_char(first, '/');
    assert(first[name.len() as int] == '/');
    let at = crate::text::find_char(first, '/');
    if at < name.len() {
        assert(name[at] == '/');
    }
    assert(first.take(at) =~= name);
    assert(first.skip(at + 1) =~= version);
    // Four fields.
    let left4 = name.push(',') + sp + version.push(',') + sp + kernel.push(',') + sp + arch;
    let line4 = name.push(',') + sp + version.push(',') + sp + kernel.push(',') + sp + arch.push(':')
        + sp + state;
    assert(line4 =~= left4.push(':') + (sp + state));
    lemma_status_split(left4, state, line4);
    let rest2 = (sp + kernel).push(',') + (sp + arch);
    let rest1 = (sp + version).push(',') + rest2;
    assert(left4 =~= name.push(',') + rest1);
    crate::text::parts_come_apart(name, ',', rest1);
    crate::text::parts_come_apart(sp + version, ',', rest2);
    assert(split(left4, ',') =~= seq![name, sp + version, sp + kernel, sp + arch]);
    crate::text::tight_text_is_kept(name);
    let fields4 = fields_of(left4);
    assert(fields4.len() == 4 && fields4[0] == name && fields4[1] == version && fields4[2] == kernel);
}

proof fn lemma_padded(s: Seq<char>)
    requires
        is_field(s),
    ensures
        trim(seq![' '] + s) == s,
        !(seq![' '] + s).contains(','),
        !(seq![' '] + s).contains(':'),
{
    let t = seq![' '] + s;
    assert(t =~= seq![' '] + s + Seq::<char>::empty());
    crate::text::trimming_undoes_padding(seq![' '], s, Seq::<char>::empty());
    if t.contains(',') {
        let m = choose|m: int| 0 <= m < t.len() && t[m] == ',';
        assert(s[m - 1] == ',');
    }
    if t.contains(':') {
        let m = choose|m: int| 0 <= m < t.len() && t[m] == ':';
        assert(s[m - 1] == ':');
    }
}

proof fn lemma_status_split(left: Seq<char>, state: Seq<char>, line: Seq<char>)
    requires
        left.len() > 0,
        !crate::text::is_space(left[0]),
        is_field(state),
        line == left.push(':') + (seq![' '] + state),
    ensures
        rsplit_once(trim(line), ':') == Some((left, seq![' '] + state)),
        trim(seq![' '] + state) == state,
{
    lemma_padded(state);
    assert(line[0] == left[0]);
    assert(line.last() == state.last());
    crate::text::tight_text_is_kept(line);
    crate::text::the_last_one_is_found(line, ':');
    let at = left.len() as int;
    assert(line[at] == ':');
    match crate::text::rfind_char(line, ':') {
        Some(i) => {
            if i > at {
                let rest = seq![' '] + state;
                assert(line[i] == rest[i - at - 1]);
                assert(rest.contains(':'));
            }
            assert(line.take(at) =~= left);
            assert(line.skip(at + 1) =~= seq![' '] + state);
        },
        None => {
            assert(line.contains(':'));
        },
    }
}

/// A directory of the local database is named by a package, its version and its release: the package
/// is what stands before the last two hyphens, however many it holds itself.
pub proof fn package_names_drop_the_version(
    name: Seq<char>,
    version: Seq<char>,
    release: Seq<char>,
)
    requires
        name.len() > 0,
        !version.contains('-'),
        !release.contains('-'),
    ensures
        directory_package(name.push('-') + version.push('-') + release) == Some(name),
{
    let head = name.push('-') + version;
    let dir = name.push('-') + version.push('-') + release;
    assert(dir =~= head.push('-') + release);
    lemma_cut_last(head, '-', release);
    lemma_cut_last(name, '-', version);
}

proof fn lemma_cut_last(head: Seq<char>, c: char, rest: Seq<char>)
    requires
        !rest.contains(c),
    ensures
        rsplit_once(head.push(c) + rest, c) == Some((head, rest)),
{
    let s = head.push(c) + rest;
    let at = head.len() as int;
    crate::text::the_last_one_is_found(s, c);
    assert(s[at] == c);
    match crate::text::rfind_char(s, c) {
        Some(i) => {
            if i > at {
                assert(s[i] == rest[i - at - 1]);
            }
            assert(s.take(at) =~= head);
            assert(s.skip(at + 1) =~= rest);
        },
        None => {
            assert(s.contains(c));
        },
    }
}

/// Packages are read from the events that list what is installed, by their names, and from no other.
pub proof fn only_installed_packages_are_listed(event: JsonModel, name: Seq<char>)
    ensures
        package_names(event).contains(name) <==> text_in(member(event, "event"@)) == Some("installed"@)
            && list_in(member(event, "packages"@)) is Some && exists|k: int|
            0 <= k < list_in(member(event, "packages"@))->0.len() && text_in(
                member(#[trigger] (list_in(member(event, "packages"@))->0)[k], "name"@),
            ) == Some(name),
{
    if list_in(member(event, "packages"@)) is Some {
        let packages = list_in(member(event, "packages"@))->0;
        let f = |p: JsonModel| text_in(member(p, "name"@));
        crate::lists::lemma_picked(packages, f, name);
        if packages.filter_map(f).contains(name) {
            let k = choose|k: int| 0 <= k < packages.len() && f(#[trigger] packages[k]) == Some(name);
            assert(text_in(member(packages[k], "name"@)) == Some(name));
        }
        if exists|k: int|
            0 <= k < packages.len() && text_in(member(#[trigger] packages[k], "name"@)) == Some(name) {
            let k = choose|k: int|
                0 <= k < packages.len() && text_in(member(#[trigger] packages[k], "name"@)) == Some(name);
            assert(f(packages[k]) == Some(name));
        }
    }
}

/// A card is ready exactly where a driver other than Nouveau drives it and nothing that is essential is
/// missing.
pub proof fn a_card_is_ready_when_both_halves_are_there(g: GpuModel, missing: Seq<RequirementModel>)
    ensures
        verdict_of(g, missing).good <==> !(g.driver is Unbound) && !(g.driver is Nouveau) && forall|i: int|
            0 <= i < missing.len() ==> !(#[trigger] missing[i]).essential,
{
    let f = |r: RequirementModel|
        if r.essential {
            Some(r.package)
        } else {
            None
        };
    if forall|i: int| 0 <= i < missing.len() ==> !(#[trigger] missing[i]).essential {
        crate::lists::lemma_none_picked(missing, f);
    } else {
        let i = choose|i: int| 0 <= i < missing.len() && (#[trigger] missing[i]).essential;
        crate::lists::lemma_picked(missing, f, missing[i].package);
        assert(f(missing[i]) == Some(missing[i].package));
    }
}

/// A command is looked for in the directories of the search path, in their order.
pub proof fn commands_are_looked_for_along_the_path(
    command: Seq<char>,
    dir: Seq<char>,
    rest: Seq<char>,
)
    requires
        !dir.contains(':'),
    ensures
        command_places(command, None).len() == 0,
        command_places(command, Some(dir)) == seq![join(dir, command)],
        command_places(command, Some(dir.push(':') + rest)) == seq![join(dir, command)]
            + command_places(command, Some(rest)),
{
    crate::text::parts_come_apart(dir, ':', rest);
    let f = |d: Seq<char>| join(d, command);
    assert(command_places(command, Some(dir)) =~= seq![join(dir, command)]);
    assert(command_places(command, Some(dir.push(':') + rest)) =~= seq![join(dir, command)]
        + command_places(command, Some(rest)));
}

} // verus!
