//! What graphics hardware a computer has, and what is driving it.
//!
//! Everything is told from what sysfs says of the devices on the PCI bus: the IDs of vendor and
//! device, the class, the module that claimed the device and the nodes it made.
use vstd::prelude::*;
use crate::lists::{
    first_index, lemma_filter_map_step, lemma_first_is, lemma_first_none,
};
use crate::number::{
    digit_char, padded_hex, read_u64, read_unsigned, u64_of, unsigned, written, zero_padded,
};
use crate::order::{by_rank, no_later, sort, text_le, Ranked};
use crate::text::{
    after_prefix, all_digits, ascii_lowercase, cat2, cat3, cat5, chars_of, contains, ends_with,
    equal, find, find_char, found, has_char, holds, index_of, last_index_of, lines,
    lines_of, lowercase_ascii, only_digits, part, rfind_char, starts, starts_with, string_of,
    strip_prefix, texts, trim, trim_start, trimmed, trimmed_start,
};

verus! {

/// PCI class 0x03 is "Display controller"; the low byte is the interface.
pub fn is_display_class(class: u32) -> (r: bool)
    ensures
        r == (class as int / 0x1_0000 == 0x03),
{
    class / 0x1_0000 == 0x03
}

#[derive(Debug, Clone, Copy, PartialEq, Eq, PartialOrd, Ord, Structural)]
pub enum Vendor {
    Nvidia,
    Amd,
    Intel,
    Other,
}

/// The vendor behind a PCI vendor ID.
pub open spec fn vendor_of(id: u16) -> Vendor {
    if id == 0x10de {
        Vendor::Nvidia
    } else if id == 0x1002 || id == 0x1022 {
        Vendor::Amd
    } else if id == 0x8086 {
        Vendor::Intel
    } else {
        Vendor::Other
    }
}

/// A vendor's name.
pub open spec fn vendor_name(v: Vendor) -> Seq<char> {
    match v {
        Vendor::Nvidia => "NVIDIA"@,
        Vendor::Amd => "AMD"@,
        Vendor::Intel => "Intel"@,
        Vendor::Other => "Unknown vendor"@,
    }
}

/// The tint that the sidebar and cards give a vendor.
pub open spec fn vendor_tint(v: Vendor) -> Seq<char> {
    match v {
        Vendor::Nvidia => "green"@,
        Vendor::Amd => "red"@,
        Vendor::Intel => "blue"@,
        Vendor::Other => "gray"@,
    }
}

impl Vendor {
    pub fn from_id(id: u16) -> (r: Vendor)
        ensures
            r == vendor_of(id),
    {
        match id {
            0x10de => Vendor::Nvidia,
            0x1002 | 0x1022 => Vendor::Amd,
            0x8086 => Vendor::Intel,
            _ => Vendor::Other,
        }
    }

    pub fn name(self) -> (r: &'static str)
        ensures
            r@ == vendor_name(self),
    {
        match self {
            Vendor::Nvidia => "NVIDIA",
            Vendor::Amd => "AMD",
            Vendor::Intel => "Intel",
            Vendor::Other => "Unknown vendor",
        }
    }

    /// The tint the sidebar and cards give this vendor.
    pub fn tint(self) -> (r: &'static str)
        ensures
            r@ == vendor_tint(self),
    {
        match self {
            Vendor::Nvidia => "green",
            Vendor::Amd => "red",
            Vendor::Intel => "blue",
            Vendor::Other => "gray",
        }
    }
}

/// How a card is being driven, judged only by the module bound to it.
#[derive(Debug, Clone, Copy, PartialEq, Eq)]
pub enum DriverKind {
    /// NVIDIA's own module, proprietary or open-kernel — both are `nvidia`.
    NvidiaProprietary,
    /// The reverse-engineered NVIDIA driver. Runs the desktop; will not run a modern game at a
    /// playable rate.
    Nouveau,
    /// The in-tree AMD driver. Nothing to install.
    Amdgpu,
    /// AMD's older in-tree driver, for pre-GCN cards.
    Radeon,
    /// The in-tree Intel driver, old or new.
    Intel,
    /// Something claimed it that we do not recognise.
    Other(&'static str),
    /// Nothing is bound. The card is inert.
    Unbound,
}

/// The kind of driver that a module's name stands for.
pub open spec fn driver_kind(module: Option<Seq<char>>) -> DriverKind {
    match module {
        Some(m) => if m == "nvidia"@ {
            DriverKind::NvidiaProprietary
        } else if m == "nouveau"@ {
            DriverKind::Nouveau
        } else if m == "amdgpu"@ {
            DriverKind::Amdgpu
        } else if m == "radeon"@ {
            DriverKind::Radeon
        } else if m == "i915"@ || m == "xe"@ {
            DriverKind::Intel
        } else {
            DriverKind::Other("other")
        },
        None => DriverKind::Unbound,
    }
}

/// A driver's label.
pub open spec fn driver_label(d: DriverKind) -> Seq<char> {
    match d {
        DriverKind::NvidiaProprietary => "NVIDIA driver"@,
        DriverKind::Nouveau => "Nouveau"@,
        DriverKind::Amdgpu => "amdgpu"@,
        DriverKind::Radeon => "radeon"@,
        DriverKind::Intel => "Intel"@,
        DriverKind::Other(name) => name@,
        DriverKind::Unbound => "No driver"@,
    }
}

/// A driver can be expected to run a 3D game well.
pub open spec fn driver_plays(d: DriverKind) -> bool {
    d is NvidiaProprietary || d is Amdgpu || d is Radeon || d is Intel
}

impl DriverKind {
    /// The kind of driver that a module's name stands for.
    pub fn from_module(module: Option<&str>) -> (r: DriverKind)
        ensures
            r == driver_kind(module.deep_view()),
    {
        match module {
            Some(m) => {
                if equal(m, "nvidia") {
                    DriverKind::NvidiaProprietary
                } else if equal(m, "nouveau") {
                    DriverKind::Nouveau
                } else if equal(m, "amdgpu") {
                    DriverKind::Amdgpu
                } else if equal(m, "radeon") {
                    DriverKind::Radeon
                } else if equal(m, "i915") || equal(m, "xe") {
                    DriverKind::Intel
                } else {
                    DriverKind::Other("other")
                }
            },
            None => DriverKind::Unbound,
        }
    }

    pub fn label(self) -> (r: &'static str)
        ensures
            r@ == driver_label(self),
    {
        match self {
            DriverKind::NvidiaProprietary => "NVIDIA driver",
            DriverKind::Nouveau => "Nouveau",
            DriverKind::Amdgpu => "amdgpu",
            DriverKind::Radeon => "radeon",
            DriverKind::Intel => "Intel",
            DriverKind::Other(name) => name,
            DriverKind::Unbound => "No driver",
        }
    }

    /// Whether this driver can be expected to run a 3D game well.
    pub fn plays_games(self) -> (r: bool)
        ensures
            r == driver_plays(self),
    {
        matches!(
            self,
            DriverKind::NvidiaProprietary
                | DriverKind::Amdgpu
                | DriverKind::Radeon
                | DriverKind::Intel
        )
    }
}

#[derive(Debug)]
pub struct Gpu {
    /// `0000:01:00.0`.
    pub address: String,
    pub vendor: Vendor,
    pub vendor_id: u16,
    pub device_id: u16,
    /// The marketing name, when the PCI ID database knew it.
    pub model: String,
    pub driver: DriverKind,
    /// The kernel module's name, verbatim.
    pub module: Option<String>,
    /// `cardN`, when the driver made one.
    pub card: Option<String>,
    /// `/dev/dri/renderDN`, the node a game actually renders on.
    pub render_node: Option<String>,
    /// Whether the firmware booted with this card as the display.
    pub boot_vga: bool,
    /// A card behind a laptop's internal panel, told by having an eDP or LVDS connector of its own.
    pub drives_internal_panel: bool,
    /// The machine's built-in graphics, as against a card added to it. Decided once every card is
    /// known, because the question only has an answer relative to the others.
    pub integrated: bool,
}

/// What is known of a card.
#[verifier::ext_equal]
pub struct GpuModel {
    pub address: Seq<char>,
    pub vendor: Vendor,
    pub vendor_id: u16,
    pub device_id: u16,
    pub model: Seq<char>,
    pub driver: DriverKind,
    pub module: Option<Seq<char>>,
    pub card: Option<Seq<char>>,
    pub render_node: Option<Seq<char>>,
    pub boot_vga: bool,
    pub drives_internal_panel: bool,
    pub integrated: bool,
}

impl DeepView for Gpu {
    type V = GpuModel;

    open spec fn deep_view(&self) -> GpuModel {
        GpuModel {
            address: self.address@,
            vendor: self.vendor,
            vendor_id: self.vendor_id,
            device_id: self.device_id,
            model: self.model@,
            driver: self.driver,
            module: self.module.deep_view(),
            card: self.card.deep_view(),
            render_node: self.render_node.deep_view(),
            boot_vga: self.boot_vga,
            drives_internal_panel: self.drives_internal_panel,
            integrated: self.integrated,
        }
    }
}

/// A copy of an optional text.
pub fn copied(text: &Option<String>) -> (r: Option<String>)
    ensures
        r.deep_view() == text.deep_view(),
{
    match text {
        Some(t) => Some(t.clone()),
        None => None,
    }
}

impl Clone for Gpu {
    fn clone(&self) -> (r: Gpu)
        ensures
            r.deep_view() == self.deep_view(),
    {
        Gpu {
            address: self.address.clone(),
            vendor: self.vendor,
            vendor_id: self.vendor_id,
            device_id: self.device_id,
            model: self.model.clone(),
            driver: self.driver,
            module: copied(&self.module),
            card: copied(&self.card),
            render_node: copied(&self.render_node),
            boot_vga: self.boot_vga,
            drives_internal_panel: self.drives_internal_panel,
            integrated: self.integrated,
        }
    }
}

/// An ID as four hexadecimal digits.
pub open spec fn id_text(id: u16) -> Seq<char> {
    zero_padded(written(id as int, 16), 4)
}

/// The line a card is named by: its model, or its vendor and IDs where the model is not known.
pub open spec fn gpu_title(g: GpuModel) -> Seq<char> {
    if g.model.len() == 0 {
        vendor_name(g.vendor) + " device "@ + id_text(g.vendor_id) + ":"@ + id_text(g.device_id)
    } else {
        g.model
    }
}

impl Gpu {
    /// The line the UI names a card by.
    pub fn title(&self) -> (r: String)
        ensures
            r@ == gpu_title(self.deep_view()),
    {
        if chars_of(&self.model).len() == 0 {
            cat5(
                self.vendor.name(),
                " device ",
                &padded_hex(self.vendor_id as u64, 4),
                ":",
                &padded_hex(self.device_id as u64, 4),
            )
        } else {
            self.model.clone()
        }
    }

    /// The machine's built-in graphics.
    pub fn is_integrated(&self) -> (r: bool)
        ensures
            r == self.deep_view().integrated,
    {
        self.integrated
    }
}

// ---------------------------------------------------------------------------
// Discovery
// ---------------------------------------------------------------------------

/// What sysfs says of one PCI device.
#[derive(Debug)]
pub struct PciDevice {
    /// The device's directory name.
    pub address: String,
    /// The texts of its files, where they could be read.
    pub class: Option<String>,
    pub vendor: Option<String>,
    pub device: Option<String>,
    pub boot_vga: Option<String>,
    /// The name its `driver` link ends in.
    pub driver: Option<String>,
    /// The names in its `drm` directory.
    pub nodes: Vec<String>,
    /// The names in the class directory of its card.
    pub connectors: Vec<String>,
}

/// What is known of one PCI device.
#[verifier::ext_equal]
pub struct PciModel {
    pub address: Seq<char>,
    pub class: Option<Seq<char>>,
    pub vendor: Option<Seq<char>>,
    pub device: Option<Seq<char>>,
    pub boot_vga: Option<Seq<char>>,
    pub driver: Option<Seq<char>>,
    pub nodes: Seq<Seq<char>>,
    pub connectors: Seq<Seq<char>>,
}

impl DeepView for PciDevice {
    type V = PciModel;

    open spec fn deep_view(&self) -> PciModel {
        PciModel {
            address: self.address@,
            class: self.class.deep_view(),
            vendor: self.vendor.deep_view(),
            device: self.device.deep_view(),
            boot_vga: self.boot_vga.deep_view(),
            driver: self.driver.deep_view(),
            nodes: self.nodes.deep_view(),
            connectors: self.connectors.deep_view(),
        }
    }
}

impl Ranked for PciDevice {
    open spec fn le(a: PciModel, b: PciModel) -> bool {
        text_le(a.address, b.address)
    }

    fn at_most(&self, other: &PciDevice) -> (r: bool) {
        no_later(&self.address, &other.address)
    }
}

/// A text without the `0x` it may start with, however often that is written.
pub open spec fn without_0x(s: Seq<char>) -> Seq<char>
    decreases s.len(),
{
    if s.len() >= 2 && s[0] == '0' && s[1] == 'x' {
        without_0x(s.skip(2))
    } else {
        s
    }
}

fn dropped_0x(s: &[char]) -> (r: &[char])
    ensures
        r@ == without_0x(s@),
{
    let mut rest: &[char] = s;
    while rest.len() >= 2 && rest[0] == '0' && rest[1] == 'x'
        invariant
            without_0x(rest@) == without_0x(s@),
        decreases rest@.len(),
    {
        rest = part(rest, 2, rest.len());
    }
    rest
}

/// The text of a sysfs file without the white space round it.
pub fn read_text(contents: Option<&str>) -> (r: Option<String>)
    ensures
        r.deep_view() == (match contents.deep_view() {
            Some(t) => Some(trim(t)),
            None => None,
        }),
{
    match contents {
        Some(t) => Some(string_of(trimmed(&chars_of(t)))),
        None => None,
    }
}

/// The number in a sysfs file.
pub open spec fn file_number(contents: Option<Seq<char>>) -> Option<u64> {
    match contents {
        Some(t) => u64_of(trim(t)),
        None => None,
    }
}

/// The number in a sysfs file.
pub fn read_num(contents: Option<&str>) -> (r: Option<u64>)
    ensures
        r == file_number(contents.deep_view()),
{
    match contents {
        Some(t) => read_u64(trimmed(&chars_of(t))),
        None => None,
    }
}

/// The hexadecimal number in a sysfs file.
pub open spec fn file_hex(contents: Option<Seq<char>>) -> Option<int> {
    match contents {
        Some(t) => unsigned(without_0x(trim(t)), 16, u64::MAX as int),
        None => None,
    }
}

fn read_hex(contents: &Option<String>) -> (r: Option<u64>)
    ensures
        r is Some <==> file_hex(contents.deep_view()) is Some,
        r is Some ==> r->0 == file_hex(contents.deep_view())->0,
{
    match contents {
        Some(t) => read_unsigned(dropped_0x(trimmed(&chars_of(t))), 16, u64::MAX),
        None => None,
    }
}

/// A name is a prefix and a number: at least one digit follows it, and nothing else.
pub open spec fn is_numbered(name: Seq<char>, prefix: Seq<char>) -> bool {
    prefix.is_prefix_of(name) && name.len() > prefix.len() && all_digits(
        name.skip(prefix.len() as int),
    )
}

/// Whether a name is a prefix and a number.
pub fn numbered(name: &[char], prefix: &str) -> (r: bool)
    ensures
        r == is_numbered(name@, prefix@),
{
    match after_prefix(name, &chars_of(prefix)) {
        Some(rest) => rest.len() > 0 && only_digits(rest),
        None => false,
    }
}

/// A `cardN` name.
pub open spec fn is_card(name: Seq<char>) -> bool {
    is_numbered(name, "card"@)
}

/// A `renderDN` name.
pub open spec fn is_render(name: Seq<char>) -> bool {
    is_numbered(name, "renderD"@)
}

/// The last card node among some names.
pub open spec fn card_node(names: Seq<Seq<char>>) -> Option<Seq<char>>
    decreases names.len(),
{
    if names.len() == 0 {
        None
    } else if is_card(names.last()) {
        Some(names.last())
    } else {
        card_node(names.drop_last())
    }
}

/// The path of the last render node among some names.
pub open spec fn render_node(names: Seq<Seq<char>>) -> Option<Seq<char>>
    decreases names.len(),
{
    if names.len() == 0 {
        None
    } else if is_render(names.last()) {
        Some("/dev/dri/"@ + names.last())
    } else {
        render_node(names.drop_last())
    }
}

/// The `cardN` and `renderDN` that a PCI device owns, among the names in its `drm` directory.
pub fn drm_nodes(names: &Vec<String>) -> (r: (Option<String>, Option<String>))
    ensures
        r.0.deep_view() == card_node(names.deep_view()),
        r.1.deep_view() == render_node(names.deep_view()),
{
    let mut card: Option<String> = None;
    let mut render: Option<String> = None;
    let mut i: usize = 0;
    while i < names.len()
        invariant
            i <= names.len(),
            card.deep_view() == card_node(names.deep_view().take(i as int)),
            render.deep_view() == render_node(names.deep_view().take(i as int)),
        decreases names.len() - i,
    {
        let ghost all = names.deep_view();
        assert(all.take(i + 1).drop_last() =~= all.take(i as int));
        assert(all.take(i + 1).last() == names@[i as int]@);
        let name = chars_of(&names[i]);
        if numbered(&name, "card") {
            card = Some(names[i].clone());
        }
        if numbered(&name, "renderD") {
            render = Some(cat2("/dev/dri/", &names[i]));
        }
        i = i + 1;
    }
    assert(names.deep_view().take(i as int) =~= names.deep_view());
    (card, render)
}

/// A connector of a card, named after it, is for a built-in screen.
pub open spec fn is_panel(card: Seq<char>, name: Seq<char>) -> bool {
    match strip_prefix(name, card + "-"@) {
        Some(connector) => "eDP"@.is_prefix_of(connector) || "LVDS"@.is_prefix_of(connector),
        None => false,
    }
}

/// A card has a connector for a built-in screen among the names in its class directory.
pub open spec fn has_panel(card: Seq<char>, names: Seq<Seq<char>>) -> bool {
    exists|i: int| 0 <= i < names.len() && is_panel(card, #[trigger] names[i])
}

/// Whether a card has a connector for a built-in screen.
pub fn drives_internal_panel(card: &str, names: &Vec<String>) -> (r: bool)
    ensures
        r == has_panel(card@, names.deep_view()),
{
    let prefix = chars_of(&cat2(card, "-"));
    let mut i: usize = 0;
    while i < names.len()
        invariant
            i <= names.len(),
            prefix@ == card@ + "-"@,
            forall|j: int| 0 <= j < i ==> !is_panel(card@, #[trigger] names.deep_view()[j]),
        decreases names.len() - i,
    {
        let name = chars_of(&names[i]);
        assert(names.deep_view()[i as int] == name@);
        if let Some(connector) = after_prefix(&name, &prefix) {
            if starts_with(connector, "eDP") || starts_with(connector, "LVDS") {
                return true;
            }
        }
        i = i + 1;
    }
    false
}

/// The first model name that one of some ID databases gives.
pub open spec fn model_in(databases: Seq<Seq<char>>, vendor: u16, device: u16) -> Seq<char>
    decreases databases.len(),
{
    if databases.len() == 0 {
        Seq::empty()
    } else {
        match pci_name(databases[0], vendor, device) {
            Some(name) => name,
            None => model_in(databases.skip(1), vendor, device),
        }
    }
}

/// The card's marketing name, from the first of some ID databases that knows it; empty where none
/// does.
fn model_name(databases: &Vec<String>, vendor: u16, device: u16) -> (r: String)
    ensures
        r@ == model_in(databases.deep_view(), vendor, device),
{
    let mut i: usize = 0;
    let ghost all = databases.deep_view();
    assert(all.skip(0) =~= all);
    while i < databases.len()
        invariant
            i <= databases.len(),
            all == databases.deep_view(),
            model_in(all.skip(i as int), vendor, device) == model_in(all, vendor, device),
        decreases databases.len() - i,
    {
        assert(all.skip(i as int)[0] == databases@[i as int]@);
        assert(all.skip(i as int).skip(1) =~= all.skip(i + 1));
        if let Some(name) = lookup_pci_id(&databases[i], vendor, device) {
            return name;
        }
        i = i + 1;
    }
    String::new()
}

/// The low sixteen bits of an ID that may not have been readable.
pub open spec fn id_of(contents: Option<Seq<char>>) -> u16 {
    match file_hex(contents) {
        Some(v) => (v % 0x1_0000) as u16,
        None => 0,
    }
}

fn read_id(contents: &Option<String>) -> (r: u16)
    ensures
        r == id_of(contents.deep_view()),
{
    match read_hex(contents) {
        Some(v) => (v % 0x1_0000) as u16,
        None => 0,
    }
}

/// The card that a PCI device is, where it is a display controller.
pub open spec fn card_of(d: PciModel, databases: Seq<Seq<char>>) -> Option<GpuModel> {
    match file_hex(d.class) {
        Some(class) => if (class % 0x1_0000_0000) / 0x1_0000 == 0x03 {
            let vendor_id = id_of(d.vendor);
            let device_id = id_of(d.device);
            let card = card_node(d.nodes);
            Some(
                GpuModel {
                    address: d.address,
                    vendor: vendor_of(vendor_id),
                    vendor_id,
                    device_id,
                    model: model_in(databases, vendor_id, device_id),
                    driver: driver_kind(d.driver),
                    module: d.driver,
                    card,
                    render_node: render_node(d.nodes),
                    boot_vga: file_number(d.boot_vga) == Some(1u64),
                    drives_internal_panel: match card {
                        Some(c) => has_panel(c, d.connectors),
                        None => false,
                    },
                    integrated: false,
                },
            )
        } else {
            None
        },
        None => None,
    }
}

fn as_card(d: &PciDevice, databases: &Vec<String>) -> (r: Option<Gpu>)
    ensures
        r.deep_view() == card_of(d.deep_view(), databases.deep_view()),
{
    match read_hex(&d.class) {
        Some(class) => {
            if !is_display_class((class % 0x1_0000_0000) as u32) {
                return None;
            }
            let vendor_id: u16 = read_id(&d.vendor);
            let device_id: u16 = read_id(&d.device);
            let (card, render_node) = drm_nodes(&d.nodes);
            let panel: bool = match &card {
                Some(c) => drives_internal_panel(c, &d.connectors),
                None => false,
            };
            let boot: Option<u64> = match &d.boot_vga {
                Some(t) => read_num(Some(t)),
                None => None,
            };
            let driver = match &d.driver {
                Some(m) => DriverKind::from_module(Some(m)),
                None => DriverKind::Unbound,
            };
            Some(
                Gpu {
                    address: d.address.clone(),
                    vendor: Vendor::from_id(vendor_id),
                    vendor_id,
                    device_id,
                    model: model_name(databases, vendor_id, device_id),
                    driver,
                    module: copied(&d.driver),
                    card,
                    render_node,
                    boot_vga: matches!(boot, Some(1)),
                    drives_internal_panel: panel,
                    integrated: false,
                },
            )
        },
        None => None,
    }
}

/// Every display controller among some PCI devices, in bus order and classified. The databases are
/// the texts of the `pci.ids` files, the one to be believed first in front.
pub fn discover(devices: Vec<PciDevice>, databases: &Vec<String>) -> (r: Vec<Gpu>)
    ensures
        r.deep_view() == classified(
            by_rank::<PciDevice>(devices.deep_view()).filter_map(
                |d: PciModel| card_of(d, databases.deep_view()),
            ),
        ),
{
    let devices = sort(devices);
    let mut gpus: Vec<Gpu> = Vec::new();
    let ghost all = devices.deep_view();
    let ghost f = |d: PciModel| card_of(d, databases.deep_view());
    let mut i: usize = 0;
    while i < devices.len()
        invariant
            i <= devices.len(),
            all == devices.deep_view(),
            f == (|d: PciModel| card_of(d, databases.deep_view())),
            gpus.deep_view() == all.take(i as int).filter_map(f),
        decreases devices.len() - i,
    {
        proof {
            lemma_filter_map_step(all, i as int, f);
        }
        let ghost before = gpus.deep_view();
        if let Some(gpu) = as_card(&devices[i], databases) {
            let ghost g = gpu.deep_view();
            gpus.push(gpu);
            assert(gpus.deep_view() =~= before.push(g));
        }
        i = i + 1;
    }
    assert(all.take(i as int) =~= all);
    classify(&mut gpus);
    gpus
}

/// A card with the built-in mark set or not.
pub open spec fn marked(g: GpuModel, integrated: bool) -> GpuModel {
    GpuModel { integrated, ..g }
}

/// Some card drives a built-in screen.
pub open spec fn is_laptop(gpus: Seq<GpuModel>) -> bool {
    exists|i: int| 0 <= i < gpus.len() && (#[trigger] gpus[i]).drives_internal_panel
}

/// Both signals of built-in graphics: the panel, and having been booted on.
pub open spec fn looks_built_in(g: GpuModel) -> bool {
    g.drives_internal_panel || g.boot_vga
}

/// Cards with the machine's built-in graphics marked. On a laptop with several cards those that
/// drive the panel or were booted on are marked; where that is every card, none is. On any other
/// machine the marks stay as they are.
pub open spec fn classified(gpus: Seq<GpuModel>) -> Seq<GpuModel> {
    if gpus.len() < 2 || !is_laptop(gpus) {
        gpus
    } else if forall|i: int| 0 <= i < gpus.len() ==> looks_built_in(#[trigger] gpus[i]) {
        gpus.map_values(|g: GpuModel| marked(g, false))
    } else {
        gpus.map_values(|g: GpuModel| marked(g, looks_built_in(g)))
    }
}

/// Decides which cards are the machine's built-in graphics.
///
/// Two signals, and both are needed because either alone is wrong somewhere: an internal panel,
/// and `boot_vga`. The second is only consulted on a machine that has a panel at all; on a desktop
/// it says nothing about integrated versus discrete. If every card ends up marked the signals are
/// not telling them apart, and none is marked rather than all.
pub fn classify(gpus: &mut Vec<Gpu>)
    ensures
        final(gpus).deep_view() == classified(old(gpus).deep_view()),
{
    let ghost all = gpus.deep_view();
    let n: usize = gpus.len();
    let mut laptop: bool = false;
    let mut every: bool = true;
    let mut i: usize = 0;
    while i < n
        invariant
            i <= n,
            n == gpus.len(),
            *gpus == *old(gpus),
            all == gpus.deep_view(),
            laptop == exists|j: int| 0 <= j < i && (#[trigger] all[j]).drives_internal_panel,
            every == forall|j: int| 0 <= j < i ==> looks_built_in(#[trigger] all[j]),
        decreases n - i,
    {
        assert(all[i as int] == gpus@[i as int].deep_view());
        if gpus[i].drives_internal_panel {
            laptop = true;
        }
        if !gpus[i].drives_internal_panel && !gpus[i].boot_vga {
            every = false;
        }
        i = i + 1;
    }
    if n < 2 || !laptop {
        return;
    }
    let ghost goal = classified(all);
    let mut k: usize = 0;
    while k < n
        invariant
            k <= n,
            n == gpus.len(),
            all.len() == n,
            goal.len() == n,
            forall|j: int|
                0 <= j < n ==> #[trigger] goal[j] == marked(
                    all[j],
                    !every && looks_built_in(all[j]),
                ),
            forall|j: int| 0 <= j < k ==> #[trigger] gpus.deep_view()[j] == goal[j],
            forall|j: int| k <= j < n ==> #[trigger] gpus.deep_view()[j] == all[j],
        decreases n - k,
    {
        let ghost before = gpus.deep_view();
        assert(before[k as int] == gpus@[k as int].deep_view());
        let built_in: bool = !every && (gpus[k].drives_internal_panel || gpus[k].boot_vga);
        gpus[k].integrated = built_in;
        assert(gpus.deep_view() =~= before.update(k as int, marked(before[k as int], built_in)));
        k = k + 1;
    }
    assert(gpus.deep_view() =~= goal);
}

// ---------------------------------------------------------------------------
// Which card
// ---------------------------------------------------------------------------

/// What is known of each card of a list.
pub open spec fn cards(gpus: Seq<Gpu>) -> Seq<GpuModel> {
    Seq::new(gpus.len(), |i: int| gpus[i].deep_view())
}

/// The place of the card that a game renders on unless told otherwise: the one the firmware booted
/// with, else the first with a render node, else the first at all.
pub open spec fn primary_at(gpus: Seq<GpuModel>) -> Option<int> {
    match first_index(gpus, |g: GpuModel| g.boot_vga) {
        Some(i) => Some(i),
        None => match first_index(gpus, |g: GpuModel| g.render_node is Some) {
            Some(i) => Some(i),
            None => if gpus.len() > 0 {
                Some(0)
            } else {
                None
            },
        },
    }
}

/// The card a game renders on unless it is told otherwise.
pub fn primary(gpus: &[Gpu]) -> (r: Option<&Gpu>)
    ensures
        match primary_at(cards(gpus@)) {
            Some(i) => r is Some && 0 <= i < gpus@.len() && r->0 == gpus@[i],
            None => r is None,
        },
{
    let ghost all = cards(gpus@);
    let mut i: usize = 0;
    while i < gpus.len()
        invariant
            i <= gpus.len(),
            all == cards(gpus@),
            forall|j: int| 0 <= j < i ==> !(#[trigger] all[j]).boot_vga,
        decreases gpus.len() - i,
    {
        if gpus[i].boot_vga {
            proof {
                lemma_first_is(all, |g: GpuModel| g.boot_vga, i as int);
            }
            return Some(&gpus[i]);
        }
        i = i + 1;
    }
    proof {
        lemma_first_none(all, |g: GpuModel| g.boot_vga);
    }
    let mut k: usize = 0;
    while k < gpus.len()
        invariant
            k <= gpus.len(),
            all == cards(gpus@),
            first_index(all, |g: GpuModel| g.boot_vga) is None,
            forall|j: int| 0 <= j < k ==> !((#[trigger] all[j]).render_node is Some),
        decreases gpus.len() - k,
    {
        if gpus[k].render_node.is_some() {
            proof {
                lemma_first_is(all, |g: GpuModel| g.render_node is Some, k as int);
            }
            return Some(&gpus[k]);
        }
        k = k + 1;
    }
    proof {
        lemma_first_none(all, |g: GpuModel| g.render_node is Some);
    }
    if gpus.len() > 0 {
        Some(&gpus[0])
    } else {
        None
    }
}

/// How a vendor's cards rank for playing on.
pub open spec fn rank_of(v: Vendor) -> int {
    match v {
        Vendor::Nvidia => 2,
        Vendor::Amd => 2,
        Vendor::Intel => 1,
        Vendor::Other => 0,
    }
}

fn vendor_rank(vendor: Vendor) -> (r: u8)
    ensures
        r == rank_of(vendor),
{
    match vendor {
        Vendor::Nvidia | Vendor::Amd => 2,
        Vendor::Intel => 1,
        Vendor::Other => 0,
    }
}

/// A card is the one worth playing on among the first `n`: discrete, of the highest rank, and the
/// first of those.
pub open spec fn best_discrete(gpus: Seq<GpuModel>, k: int, n: int) -> bool {
    &&& 0 <= k < n
    &&& !gpus[k].integrated
    &&& forall|j: int|
        0 <= j < n && !(#[trigger] gpus[j]).integrated ==> rank_of(gpus[j].vendor) <= rank_of(
            gpus[k].vendor,
        ) && (j < k ==> rank_of(gpus[j].vendor) < rank_of(gpus[k].vendor))
}

/// Every card is built in.
pub open spec fn no_discrete(gpus: Seq<GpuModel>) -> bool {
    forall|j: int| 0 <= j < gpus.len() ==> (#[trigger] gpus[j]).integrated
}

/// The card worth playing on: the best discrete one, or the first card where none is discrete.
pub fn gaming_gpu(gpus: &[Gpu]) -> (r: Option<&Gpu>)
    ensures
        r is None <==> gpus@.len() == 0,
        r is Some && no_discrete(cards(gpus@)) ==> r->0 == gpus@[0],
        r is Some && !no_discrete(cards(gpus@)) ==> exists|k: int|
            best_discrete(cards(gpus@), k, gpus@.len() as int) && r->0 == #[trigger] gpus@[k],
{
    let ghost all = cards(gpus@);
    let mut best: Option<usize> = None;
    let mut i: usize = 0;
    while i < gpus.len()
        invariant
            i <= gpus.len(),
            all == cards(gpus@),
            match best {
                Some(k) => best_discrete(all, k as int, i as int),
                None => forall|j: int| 0 <= j < i ==> (#[trigger] all[j]).integrated,
            },
        decreases gpus.len() - i,
    {
        if !gpus[i].is_integrated() {
            let better: bool = match best {
                Some(k) => vendor_rank(gpus[k].vendor) < vendor_rank(gpus[i].vendor),
                None => true,
            };
            if better {
                best = Some(i);
            }
        }
        i = i + 1;
    }
    match best {
        Some(k) => {
            assert(!no_discrete(all)) by {
                assert(!all[k as int].integrated);
            }
            Some(&gpus[k])
        },
        None => if gpus.len() > 0 {
            Some(&gpus[0])
        } else {
            None
        },
    }
}

/// A machine has a discrete card and an integrated one.
pub open spec fn hybrid(gpus: Seq<GpuModel>) -> bool {
    &&& gpus.len() > 1
    &&& exists|i: int| 0 <= i < gpus.len() && (#[trigger] gpus[i]).integrated
    &&& exists|i: int| 0 <= i < gpus.len() && !(#[trigger] gpus[i]).integrated
}

/// True when the machine has a discrete card *and* an integrated one, the arrangement where which
/// card a game lands on is a question with an answer worth showing.
pub fn is_hybrid(gpus: &[Gpu]) -> (r: bool)
    ensures
        r == hybrid(cards(gpus@)),
{
    let ghost all = cards(gpus@);
    let mut integrated: bool = false;
    let mut discrete: bool = false;
    let mut i: usize = 0;
    while i < gpus.len()
        invariant
            i <= gpus.len(),
            all == cards(gpus@),
            integrated == exists|j: int| 0 <= j < i && (#[trigger] all[j]).integrated,
            discrete == exists|j: int| 0 <= j < i && !(#[trigger] all[j]).integrated,
        decreases gpus.len() - i,
    {
        assert(all[i as int] == gpus@[i as int].deep_view());
        if gpus[i].is_integrated() {
            integrated = true;
        } else {
            discrete = true;
        }
        i = i + 1;
    }
    gpus.len() > 1 && integrated && discrete
}

// ---------------------------------------------------------------------------
// Vulkan
// ---------------------------------------------------------------------------

/// A Vulkan driver installed on the system, as named by its ICD manifest.
#[derive(Debug, Clone, PartialEq, Eq)]
pub struct VulkanIcd {
    /// `nvidia_icd.json`.
    pub file: String,
    /// The vendor the file name gives away.
    pub vendor: Vendor,
    /// Whether the library the manifest points at is actually on disk.
    pub library_present: bool,
}

/// What is known of an installed Vulkan driver.
#[verifier::ext_equal]
pub struct IcdModel {
    pub file: Seq<char>,
    pub vendor: Vendor,
    pub library_present: bool,
}

impl DeepView for VulkanIcd {
    type V = IcdModel;

    open spec fn deep_view(&self) -> IcdModel {
        IcdModel {
            file: self.file@,
            vendor: self.vendor,
            library_present: self.library_present,
        }
    }
}

impl Ranked for VulkanIcd {
    open spec fn le(a: IcdModel, b: IcdModel) -> bool {
        text_le(a.file, b.file)
    }

    fn at_most(&self, other: &VulkanIcd) -> (r: bool) {
        no_later(&self.file, &other.file)
    }
}

/// A file found in one of the directories of ICD manifests.
#[derive(Debug)]
pub struct IcdFile {
    pub file: String,
    /// Its text, empty where it could not be read.
    pub text: String,
    /// Whether the file that its `library_path` names exists.
    pub library_on_disk: bool,
}

/// What is known of a file among the ICD manifests.
#[verifier::ext_equal]
pub struct IcdFileModel {
    pub file: Seq<char>,
    pub text: Seq<char>,
    pub library_on_disk: bool,
}

impl DeepView for IcdFile {
    type V = IcdFileModel;

    open spec fn deep_view(&self) -> IcdFileModel {
        IcdFileModel {
            file: self.file@,
            text: self.text@,
            library_on_disk: self.library_on_disk,
        }
    }
}

/// The vendor that the name of a manifest gives away.
pub open spec fn vendor_in(file: Seq<char>) -> Vendor {
    let f = ascii_lowercase(file);
    if contains(f, "nvidia"@) {
        Vendor::Nvidia
    } else if contains(f, "radeon"@) || contains(f, "amd"@) {
        Vendor::Amd
    } else if contains(f, "intel"@) {
        Vendor::Intel
    } else {
        Vendor::Other
    }
}

/// The vendor that the name of a manifest gives away.
pub fn icd_vendor(file: &str) -> (r: Vendor)
    ensures
        r == vendor_in(file@),
{
    let f = lowercase_ascii(&chars_of(file));
    if holds(&f, "nvidia") {
        Vendor::Nvidia
    } else if holds(&f, "radeon") || holds(&f, "amd") {
        Vendor::Amd
    } else if holds(&f, "intel") {
        Vendor::Intel
    } else {
        Vendor::Other
    }
}

/// A manifest's library is there: a bare soname is left to the loader, a path must be on disk, and
/// a manifest without one has none.
pub open spec fn library_there(manifest: Seq<char>, on_disk: bool) -> bool {
    match string_value(manifest, "library_path"@) {
        Some(path) => !path.contains('/') || on_disk,
        None => false,
    }
}

/// The path that an ICD manifest names its library by, where it is a path and no bare soname.
pub fn icd_library_file(manifest: &str) -> (r: Option<String>)
    ensures
        r.deep_view() == (match string_value(manifest@, "library_path"@) {
            Some(path) => if path.contains('/') {
                Some(path)
            } else {
                None
            },
            None => None,
        }),
{
    match json_string(manifest, "library_path") {
        Some(path) => if has_char(&chars_of(&path), '/') {
            Some(path)
        } else {
            None
        },
        None => None,
    }
}

/// Whether the `library_path` in an ICD manifest resolves to a file, given whether the path in it
/// is on disk. A bare soname is left alone: resolving it means walking the loader's search path,
/// and a bare soname is the normal, working case.
pub fn icd_library_present(manifest: &str, on_disk: bool) -> (r: bool)
    ensures
        r == library_there(manifest@, on_disk),
{
    match json_string(manifest, "library_path") {
        Some(path) => !has_char(&chars_of(&path), '/') || on_disk,
        None => false,
    }
}

/// The driver that a manifest stands for.
pub open spec fn icd_of(f: IcdFileModel) -> IcdModel {
    IcdModel {
        file: f.file,
        vendor: vendor_in(f.file),
        library_present: library_there(f.text, f.library_on_disk),
    }
}

/// The drivers of the JSON files among some files; of several with one name the first.
pub open spec fn icds_in(files: Seq<IcdFileModel>) -> Seq<IcdModel>
    decreases files.len(),
{
    if files.len() == 0 {
        Seq::empty()
    } else {
        let rest = icds_in(files.drop_last());
        let f = files.last();
        if !".json"@.is_suffix_of(f.file) || exists|i: int|
            0 <= i < rest.len() && (#[trigger] rest[i]).file == f.file {
            rest
        } else {
            rest.push(icd_of(f))
        }
    }
}

/// The Vulkan drivers that the files in the manifest directories stand for, by name.
pub fn vulkan_icds(files: &Vec<IcdFile>) -> (r: Vec<VulkanIcd>)
    ensures
        r.deep_view() == by_rank::<VulkanIcd>(icds_in(files.deep_view())),
{
    let mut icds: Vec<VulkanIcd> = Vec::new();
    let ghost all = files.deep_view();
    let mut i: usize = 0;
    while i < files.len()
        invariant
            i <= files.len(),
            all == files.deep_view(),
            icds.deep_view() == icds_in(all.take(i as int)),
        decreases files.len() - i,
    {
        assert(all.take(i + 1).drop_last() =~= all.take(i as int));
        assert(all.take(i + 1).last() == files@[i as int].deep_view());
        let f = &files[i];
        let ghost before = icds.deep_view();
        let mut known: bool = false;
        let mut k: usize = 0;
        while k < icds.len()
            invariant
                k <= icds.len(),
                before == icds.deep_view(),
                known == exists|j: int| 0 <= j < k && (#[trigger] before[j]).file == f.file@,
            decreases icds.len() - k,
        {
            assert(before[k as int].file == icds@[k as int].file@);
            if equal(&icds[k].file, &f.file) {
                known = true;
            }
            k = k + 1;
        }
        if ends_with(&chars_of(&f.file), ".json") && !known {
            icds.push(
                VulkanIcd {
                    file: f.file.clone(),
                    vendor: icd_vendor(&f.file),
                    library_present: icd_library_present(&f.text, f.library_on_disk),
                },
            );
            assert(icds.deep_view() =~= before.push(icd_of(f.deep_view())));
        }
        i = i + 1;
    }
    assert(all.take(i as int) =~= all);
    sort(icds)
}

/// The string value under a key of a small, flat JSON text: what stands in quotes after the first
/// mention of the quoted key and a colon.
pub open spec fn string_value(text: Seq<char>, key: Seq<char>) -> Option<Seq<char>> {
    let needle = "\""@ + key + "\""@;
    match find(text, needle) {
        Some(at) => {
            let after = trim_start(text.skip(at + needle.len()));
            if after.len() > 0 && after[0] == ':' {
                let value = trim_start(after.skip(1));
                if value.len() > 0 && value[0] == '"' {
                    let rest = value.skip(1);
                    let end = find_char(rest, '"');
                    if end < rest.len() {
                        Some(rest.take(end))
                    } else {
                        None
                    }
                } else {
                    None
                }
            } else {
                None
            }
        },
        None => None,
    }
}

/// The one string value out of a small, flat JSON manifest.
pub fn json_string(text: &str, key: &str) -> (r: Option<String>)
    ensures
        r.deep_view() == string_value(text@, key@),
{
    let text = chars_of(text);
    let needle = chars_of(&cat3("\"", key, "\""));
    let n: usize = text.len();
    match found(&text, &needle) {
        Some(at) => {
            let after = trimmed_start(part(&text, at + needle.len(), n));
            if after.len() > 0 && after[0] == ':' {
                let value = trimmed_start(part(after, 1, after.len()));
                if value.len() > 0 && value[0] == '"' {
                    let rest = part(value, 1, value.len());
                    let end: usize = index_of(rest, '"');
                    if end < rest.len() {
                        return Some(string_of(part(rest, 0, end)));
                    }
                }
            }
            None
        },
        None => None,
    }
}

// ---------------------------------------------------------------------------
// 32-bit support
// ---------------------------------------------------------------------------

/// Whether the 32-bit graphics stack is installed, told by which of the two places that it can
/// stand in hold a `libGL.so.1`: `/usr/lib32` and `/usr/lib/i386-linux-gnu`.
pub fn has_32bit_stack(in_lib32: bool, in_multiarch: bool) -> (r: bool)
    ensures
        r == (in_lib32 || in_multiarch),
{
    in_lib32 || in_multiarch
}

// ---------------------------------------------------------------------------
// Model names
// ---------------------------------------------------------------------------

/// A line of an ID database that says nothing.
pub open spec fn is_blank_or_comment(line: Seq<char>) -> bool {
    "#"@.is_prefix_of(line) || trim(line).len() == 0
}

/// The name of a device among the lines of an ID database. A vendor stands at column 0, its
/// devices one tab in, their subsystems two. The search ends where the vendor's block does.
pub open spec fn device_in(
    lines: Seq<Seq<char>>,
    vendor: Seq<char>,
    device: Seq<char>,
    in_vendor: bool,
) -> Option<Seq<char>>
    decreases lines.len(),
{
    if lines.len() == 0 {
        None
    } else {
        let line = lines[0];
        let rest = lines.skip(1);
        if is_blank_or_comment(line) {
            device_in(rest, vendor, device, in_vendor)
        } else if !"\t"@.is_prefix_of(line) {
            if in_vendor {
                None
            } else {
                device_in(rest, vendor, device, vendor.is_prefix_of(line))
            }
        } else if in_vendor && !"\t\t"@.is_prefix_of(line) && device.is_prefix_of(line) {
            Some(retail_name(trim(line.skip(device.len() as int))))
        } else {
            device_in(rest, vendor, device, in_vendor)
        }
    }
}

/// The name of a device in an ID database.
pub open spec fn pci_name(text: Seq<char>, vendor: u16, device: u16) -> Option<Seq<char>> {
    device_in(lines(text), id_text(vendor), "\t"@ + id_text(device), false)
}

/// Finds a device under its vendor in the text of a `pci.ids` file.
pub fn lookup_pci_id(text: &str, vendor: u16, device: u16) -> (r: Option<String>)
    ensures
        r.deep_view() == pci_name(text@, vendor, device),
{
    let vendor_prefix = chars_of(&padded_hex(vendor as u64, 4));
    let device_prefix = chars_of(&cat2("\t", &padded_hex(device as u64, 4)));
    let chars = chars_of(text);
    let all = lines_of(&chars);
    let ghost every = texts(all@);
    let mut in_vendor: bool = false;
    let mut i: usize = 0;
    assert(every.skip(0) =~= every);
    while i < all.len()
        invariant
            i <= all.len(),
            every == texts(all@),
            every == lines(text@),
            vendor_prefix@ == id_text(vendor),
            device_prefix@ == "\t"@ + id_text(device),
            device_in(every.skip(i as int), vendor_prefix@, device_prefix@, in_vendor) == device_in(
                every,
                vendor_prefix@,
                device_prefix@,
                false,
            ),
        decreases all.len() - i,
    {
        let line = all[i];
        assert(every.skip(i as int)[0] == line@);
        assert(every.skip(i as int).skip(1) =~= every.skip(i + 1));
        if !starts_with(line, "#") && trimmed(line).len() != 0 {
            if !starts_with(line, "\t") {
                if in_vendor {
                    return None;
                }
                in_vendor = starts(line, &vendor_prefix);
            } else if in_vendor && !starts_with(line, "\t\t") {
                if let Some(rest) = after_prefix(line, &device_prefix) {
                    return Some(clean(trimmed(rest)));
                }
            }
        }
        i = i + 1;
    }
    None
}

/// The bracketed retail name within a chip's name, or the whole name where there is none.
pub open spec fn retail_name(name: Seq<char>) -> Seq<char> {
    let open = find_char(name, '[');
    match rfind_char(name, ']') {
        Some(close) => if open < name.len() && close > open + 1 {
            name.subrange(open + 1, close)
        } else {
            name
        },
        None => name,
    }
}

fn clean(name: &[char]) -> (r: String)
    ensures
        r@ == retail_name(name@),
{
    let open: usize = index_of(name, '[');
    let n: usize = name.len();
    match last_index_of(name, ']') {
        Some(close) => if open < n && close > open + 1 {
            string_of(part(name, open + 1, close))
        } else {
            string_of(name)
        },
        None => string_of(name),
    }
}

/// `pci.ids` names carry a bracketed retail name after the chip's own; the bracketed half is the
/// one people recognise.
pub fn clean_model(name: &str) -> (r: String)
    ensures
        r@ == retail_name(name@),
{
    clean(&chars_of(name))
}

// ---------------------------------------------------------------------------
// Laws
// ---------------------------------------------------------------------------

/// Classifying never marks every card of a machine as built in, where none was marked before.
pub proof fn classifying_leaves_a_discrete_card(gpus: Seq<GpuModel>)
    requires
        gpus.len() > 0,
        forall|i: int| 0 <= i < gpus.len() ==> !(#[trigger] gpus[i]).integrated,
    ensures
        !no_discrete(classified(gpus)),
{
    let c = classified(gpus);
    if gpus.len() < 2 || !is_laptop(gpus) {
        assert(!c[0].integrated);
    } else if forall|i: int| 0 <= i < gpus.len() ==> looks_built_in(#[trigger] gpus[i]) {
        assert(!c[0].integrated);
    } else {
        let k = choose|k: int| 0 <= k < gpus.len() && !looks_built_in(#[trigger] gpus[k]);
        assert(!c[k].integrated);
    }
}

/// A desktop's cards are all discrete: without a panel no card gets marked.
pub proof fn a_desktop_has_no_built_in_graphics(gpus: Seq<GpuModel>)
    requires
        !is_laptop(gpus),
        forall|i: int| 0 <= i < gpus.len() ==> !(#[trigger] gpus[i]).integrated,
    ensures
        classified(gpus) == gpus,
        !hybrid(classified(gpus)),
{
}

/// Classifying leaves a single card as it is, and a machine with one card is no hybrid.
pub proof fn one_card_is_no_hybrid(gpus: Seq<GpuModel>)
    requires
        gpus.len() <= 1,
    ensures
        classified(gpus) == gpus,
        !hybrid(gpus),
{
}

/// Classifying changes nothing of a card but the built-in mark.
pub proof fn classifying_changes_only_the_mark(gpus: Seq<GpuModel>, i: int)
    requires
        0 <= i < gpus.len(),
    ensures
        classified(gpus).len() == gpus.len(),
        marked(classified(gpus)[i], gpus[i].integrated) == gpus[i],
{
}

/// Where a card is discrete, one of them is the one worth playing on.
pub proof fn some_card_is_best(gpus: Seq<GpuModel>)
    requires
        !no_discrete(gpus),
    ensures
        exists|k: int| best_discrete(gpus, k, gpus.len() as int),
    decreases gpus.len(),
{
    let d = choose|d: int| 0 <= d < gpus.len() && !(#[trigger] gpus[d]).integrated;
    let n = gpus.len() - 1;
    let t = gpus.drop_last();
    if no_discrete(t) {
        if d < n {
            assert(t[d] == gpus[d]);
        }
        assert(best_discrete(gpus, n, gpus.len() as int)) by {
            assert forall|j: int| 0 <= j < n implies (#[trigger] gpus[j]).integrated by {
                assert(t[j] == gpus[j]);
            }
        }
    } else {
        some_card_is_best(t);
        let k = choose|k: int| best_discrete(t, k, n);
        assert(forall|j: int| 0 <= j < n ==> #[trigger] t[j] == gpus[j]);
        if !gpus[n].integrated && rank_of(gpus[n].vendor) > rank_of(gpus[k].vendor) {
            assert(best_discrete(gpus, n, gpus.len() as int)) by {
                assert forall|j: int| 0 <= j < gpus.len() && !(#[trigger] gpus[j]).integrated implies
                    rank_of(gpus[j].vendor) <= rank_of(gpus[n].vendor) && (j < n ==> rank_of(
                    gpus[j].vendor,
                ) < rank_of(gpus[n].vendor)) by {
                    if j < n {
                        assert(t[j] == gpus[j]);
                    }
                }
            }
        } else {
            assert(best_discrete(gpus, k, gpus.len() as int)) by {
                assert forall|j: int| 0 <= j < gpus.len() && !(#[trigger] gpus[j]).integrated implies
                    rank_of(gpus[j].vendor) <= rank_of(gpus[k].vendor) && (j < k ==> rank_of(
                    gpus[j].vendor,
                ) < rank_of(gpus[k].vendor)) by {
                    if j < n {
                        assert(t[j] == gpus[j]);
                    }
                }
            }
        }
    }
}

/// There is at most one card worth playing on.
pub proof fn the_best_card_is_one(gpus: Seq<GpuModel>, a: int, b: int)
    requires
        best_discrete(gpus, a, gpus.len() as int),
        best_discrete(gpus, b, gpus.len() as int),
    ensures
        a == b,
{
    assert(!gpus[a].integrated && !gpus[b].integrated);
}

proof fn lemma_written_is_tight(n: int, radix: int)
    requires
        0 <= n,
        radix == 10 || radix == 16,
    ensures
        crate::text::is_tight(written(n, radix)),
        written(n, radix).len() > 0,
{
    crate::number::lemma_written(n, radix);
    let w = written(n, radix);
    assert(crate::number::digit_value(w[0]) < radix);
    assert(crate::number::digit_value(w.last()) < radix) by {
        assert(w.last() == w[w.len() - 1]);
    }
}

/// A number is read from a file whatever white space is round it: a decimal one as it is written, a
/// hexadecimal one behind its `0x`.
pub proof fn numbers_are_read_from_files(n: u64, before: Seq<char>, after: Seq<char>)
    requires
        crate::text::all_space(before),
        crate::text::all_space(after),
    ensures
        file_number(Some(before + written(n as int, 10) + after)) == Some(n),
        file_number(None) is None,
        file_hex(Some(before + ("0x"@ + written(n as int, 16)) + after)) == Some(n as int),
        file_hex(None) is None,
{
    reveal_strlit("0x");
    lemma_written_is_tight(n as int, 10);
    lemma_written_is_tight(n as int, 16);
    let d = written(n as int, 10);
    crate::text::trimming_undoes_padding(before, d, after);
    crate::number::written_reads_back(n as int, 10, u64::MAX as int);
    let w = written(n as int, 16);
    let h = "0x"@ + w;
    assert(h[0] == '0');
    assert(h.last() == w.last());
    crate::text::trimming_undoes_padding(before, h, after);
    assert(h.skip(2) =~= w);
    crate::number::lemma_written(n as int, 16);
    if w.len() >= 2 {
        assert(crate::number::digit_value(w[1]) < 16);
    }
    assert(without_0x(w) == w);
    assert(without_0x(h) == w);
    crate::number::written_reads_back(n as int, 16, u64::MAX as int);
}

/// A vendor is told by the ID that the PCI registry gave it; AMD has two.
pub proof fn vendors_are_told_by_their_ids(id: u16)
    ensures
        vendor_of(id) == Vendor::Nvidia <==> id == 0x10de,
        vendor_of(id) == Vendor::Amd <==> id == 0x1002 || id == 0x1022,
        vendor_of(id) == Vendor::Intel <==> id == 0x8086,
{
}

/// A driver is told by the name of the module that claimed the card, and it can run a game unless it
/// is Nouveau, is not known, or is not there.
pub proof fn drivers_are_told_by_their_modules(module: Seq<char>)
    ensures
        driver_kind(Some("nvidia"@)) is NvidiaProprietary,
        driver_kind(Some("nouveau"@)) is Nouveau,
        driver_kind(Some("amdgpu"@)) is Amdgpu,
        driver_kind(Some("radeon"@)) is Radeon,
        driver_kind(Some("i915"@)) is Intel,
        driver_kind(Some("xe"@)) is Intel,
        driver_kind(None) is Unbound,
        driver_plays(driver_kind(Some(module))) <==> module == "nvidia"@ || module == "amdgpu"@ || module
            == "radeon"@ || module == "i915"@ || module == "xe"@,
        !driver_plays(driver_kind(None)),
{
    reveal_strlit("nvidia");
    reveal_strlit("nouveau");
    reveal_strlit("amdgpu");
    reveal_strlit("radeon");
    reveal_strlit("i915");
    reveal_strlit("xe");
    assert("nvidia"@[0] == 'n' && "nouveau"@.len() == 7 && "amdgpu"@[0] == 'a' && "radeon"@[0] == 'r'
        && "i915"@.len() == 4 && "xe"@.len() == 2);
}

/// A device on the bus is a card exactly where its class is that of display controllers, whatever the
/// interface, and what is known of it is what its files say.
#[verifier::rlimit(40)]
pub proof fn display_controllers_are_cards(
    d: PciModel,
    databases: Seq<Seq<char>>,
    class: u32,
    vendor: u16,
    device: u16,
)
    requires
        d.class == Some("0x"@ + written(class as int, 16) + "\n"@),
        d.vendor == Some("0x"@ + written(vendor as int, 16) + "\n"@),
        d.device == Some("0x"@ + written(device as int, 16) + "\n"@),
    ensures
        card_of(d, databases) is Some <==> 0x03_0000 <= class <= 0x03_ffff,
        card_of(d, databases) is Some ==> {
            let g = card_of(d, databases)->0;
            &&& g.address == d.address
            &&& g.vendor_id == vendor && g.device_id == device
            &&& g.vendor == vendor_of(vendor)
            &&& g.module == d.driver && g.driver == driver_kind(d.driver)
            &&& g.boot_vga <==> file_number(d.boot_vga) == Some(1u64)
            &&& g.card == card_node(d.nodes) && g.render_node == render_node(d.nodes)
            &&& g.drives_internal_panel ==> g.card is Some
            &&& !g.integrated
        },
{
    reveal_strlit("\n");
    let none = Seq::<char>::empty();
    numbers_are_read_from_files(class as u64, none, "\n"@);
    numbers_are_read_from_files(vendor as u64, none, "\n"@);
    numbers_are_read_from_files(device as u64, none, "\n"@);
    assert(none + ("0x"@ + written(class as int, 16)) + "\n"@ =~= d.class->0);
    assert(none + ("0x"@ + written(vendor as int, 16)) + "\n"@ =~= d.vendor->0);
    assert(none + ("0x"@ + written(device as int, 16)) + "\n"@ =~= d.device->0);
}

/// A device that does not say what class it is of is no card.
pub proof fn no_class_no_card(d: PciModel, databases: Seq<Seq<char>>)
    requires
        d.class is None,
    ensures
        card_of(d, databases) is None,
{
}

/// The nodes of a card are the names that are `card` or `renderD` and a number; a connector, whose name
/// goes on, is neither.
pub proof fn nodes_are_told_by_their_names(names: Seq<Seq<char>>, digits: Seq<char>, name: Seq<char>)
    requires
        digits.len() > 0,
        all_digits(digits),
    ensures
        card_node(names.push("card"@ + digits)) == Some("card"@ + digits),
        render_node(names.push("renderD"@ + digits)) == Some("/dev/dri/"@ + ("renderD"@ + digits)),
        name.contains('-') ==> card_node(names.push(name)) == card_node(names) && render_node(
            names.push(name),
        ) == render_node(names),
        card_node(Seq::empty()) is None && render_node(Seq::empty()) is None,
{
    let c = "card"@ + digits;
    let r = "renderD"@ + digits;
    assert(names.push(c).drop_last() =~= names);
    assert(names.push(r).drop_last() =~= names);
    assert(names.push(name).drop_last() =~= names);
    assert(c.skip("card"@.len() as int) =~= digits);
    assert(r.skip("renderD"@.len() as int) =~= digits);
    assert(c.subrange(0, "card"@.len() as int) =~= "card"@);
    assert(r.subrange(0, "renderD"@.len() as int) =~= "renderD"@);
    if name.contains('-') {
        let k = choose|k: int| 0 <= k < name.len() && name[k] == '-';
        reveal_strlit("card");
        reveal_strlit("renderD");
        if is_card(name) {
            if k < 4 {
                assert(name.subrange(0, 4)[k] == "card"@[k]);
            } else {
                assert(name.skip(4)[k - 4] == '-');
                assert(crate::text::is_digit(name.skip(4)[k - 4]));
            }
        }
        if is_render(name) {
            if k < 7 {
                assert(name.subrange(0, 7)[k] == "renderD"@[k]);
            } else {
                assert(name.skip(7)[k - 7] == '-');
                assert(crate::text::is_digit(name.skip(7)[k - 7]));
            }
        }
    }
}

/// A built-in screen is told by its connector: one of the card's own that is eDP or LVDS.
pub proof fn built_in_screens_are_told_by_their_connector(
    card: Seq<char>,
    rest: Seq<char>,
    names: Seq<Seq<char>>,
    k: int,
)
    ensures
        is_panel(card, card + "-"@ + ("eDP"@ + rest)),
        is_panel(card, card + "-"@ + ("LVDS"@ + rest)),
        !is_panel(card, card + "-"@ + ("HDMI"@ + rest)),
        !is_panel(card, card + "-"@ + ("DP"@ + rest)),
        0 <= k < names.len() && is_panel(card, names[k]) ==> has_panel(card, names),
{
    reveal_strlit("eDP");
    reveal_strlit("LVDS");
    reveal_strlit("HDMI");
    reveal_strlit("DP");
    let head = card + "-"@;
    lemma_connector(head, "eDP"@ + rest);
    lemma_connector(head, "LVDS"@ + rest);
    lemma_connector(head, "HDMI"@ + rest);
    lemma_connector(head, "DP"@ + rest);
    assert(("eDP"@ + rest).subrange(0, 3) =~= "eDP"@);
    assert(("LVDS"@ + rest).subrange(0, 4) =~= "LVDS"@);
    assert(("HDMI"@ + rest)[0] == 'H');
    assert(("DP"@ + rest)[0] == 'D');
    if "eDP"@.is_prefix_of("HDMI"@ + rest) {
        assert(("HDMI"@ + rest).subrange(0, 3)[0] == 'H');
    }
    if "LVDS"@.is_prefix_of("HDMI"@ + rest) {
        assert(("HDMI"@ + rest).subrange(0, 4)[0] == 'H');
    }
    if "eDP"@.is_prefix_of("DP"@ + rest) {
        assert(("DP"@ + rest).subrange(0, 3)[0] == 'D');
    }
    if "LVDS"@.is_prefix_of("DP"@ + rest) {
        assert(("DP"@ + rest).subrange(0, 4)[0] == 'D');
    }
}

proof fn lemma_connector(head: Seq<char>, connector: Seq<char>)
    ensures
        strip_prefix(head + connector, head) == Some(connector),
{
    let name = head + connector;
    assert(name.subrange(0, head.len() as int) =~= head);
    assert(name.skip(head.len() as int) =~= connector);
}

/// On a laptop with several cards the built-in graphics is whatever drives the panel or was booted on,
/// unless that is every card, where it is none; on any other machine nothing is decided.
pub proof fn the_panel_and_the_boot_tell_built_in_graphics(gpus: Seq<GpuModel>, i: int)
    requires
        gpus.len() >= 2,
        0 <= i < gpus.len(),
        exists|k: int| 0 <= k < gpus.len() && (#[trigger] gpus[k]).drives_internal_panel,
    ensures
        (exists|k: int|
            0 <= k < gpus.len() && !(#[trigger] gpus[k]).drives_internal_panel && !gpus[k].boot_vga) ==> (
        classified(gpus)[i].integrated <==> gpus[i].drives_internal_panel || gpus[i].boot_vga),
        (forall|k: int|
            0 <= k < gpus.len() ==> (#[trigger] gpus[k]).drives_internal_panel || gpus[k].boot_vga)
            ==> !classified(gpus)[i].integrated,
{
    assert(is_laptop(gpus));
    if exists|k: int|
        0 <= k < gpus.len() && !(#[trigger] gpus[k]).drives_internal_panel && !gpus[k].boot_vga {
        let k = choose|k: int|
            0 <= k < gpus.len() && !(#[trigger] gpus[k]).drives_internal_panel && !gpus[k].boot_vga;
        assert(!looks_built_in(gpus[k]));
    }
}

/// A game renders on the card that the firmware booted with; where there is none, on the first that
/// can render; and where there is none of those either, on the first.
pub proof fn games_land_on_the_booted_card(gpus: Seq<GpuModel>, i: int)
    requires
        0 <= i < gpus.len(),
    ensures
        gpus[i].boot_vga && (forall|j: int| 0 <= j < i ==> !(#[trigger] gpus[j]).boot_vga) ==> primary_at(
            gpus,
        ) == Some(i),
        gpus[i].render_node is Some && (forall|j: int|
            0 <= j < i ==> (#[trigger] gpus[j]).render_node is None) && (forall|j: int|
            0 <= j < gpus.len() ==> !(#[trigger] gpus[j]).boot_vga) ==> primary_at(gpus) == Some(i),
        (forall|j: int|
            0 <= j < gpus.len() ==> (#[trigger] gpus[j]).render_node is None && !gpus[j].boot_vga)
            ==> primary_at(gpus) == Some(0int),
        primary_at(Seq::empty()) is None,
{
    let p = |g: GpuModel| g.boot_vga;
    let q = |g: GpuModel| g.render_node is Some;
    if gpus[i].boot_vga && (forall|j: int| 0 <= j < i ==> !(#[trigger] gpus[j]).boot_vga) {
        lemma_first_is(gpus, p, i);
    }
    if forall|j: int| 0 <= j < gpus.len() ==> !(#[trigger] gpus[j]).boot_vga {
        lemma_first_none(gpus, p);
        if gpus[i].render_node is Some && (forall|j: int|
            0 <= j < i ==> (#[trigger] gpus[j]).render_node is None) {
            lemma_first_is(gpus, q, i);
        }
    }
    if forall|j: int|
        0 <= j < gpus.len() ==> (#[trigger] gpus[j]).render_node is None && !gpus[j].boot_vga {
        lemma_first_none(gpus, p);
        lemma_first_none(gpus, q);
    }
    lemma_first_none(Seq::<GpuModel>::empty(), p);
    lemma_first_none(Seq::<GpuModel>::empty(), q);
}

/// A machine is a hybrid exactly where some card is built in and some card is not.
pub proof fn a_hybrid_has_both_kinds(gpus: Seq<GpuModel>)
    ensures
        hybrid(gpus) <==> (exists|i: int| 0 <= i < gpus.len() && (#[trigger] gpus[i]).integrated) && (
        exists|i: int| 0 <= i < gpus.len() && !(#[trigger] gpus[i]).integrated),
{
}

/// For playing on, a discrete card of NVIDIA's or AMD's outranks one of Intel's, and that any other;
/// NVIDIA and AMD rank alike.
pub proof fn vendors_rank_for_playing_on()
    ensures
        rank_of(Vendor::Nvidia) == rank_of(Vendor::Amd),
        rank_of(Vendor::Amd) > rank_of(Vendor::Intel),
        rank_of(Vendor::Intel) > rank_of(Vendor::Other),
{
}

/// The string under a key is read from a small JSON text, whatever white space stands round the colon,
/// where the key is not mentioned before.
#[verifier::rlimit(40)]
pub proof fn json_strings_are_read_back(
    before: Seq<char>,
    key: Seq<char>,
    gap: Seq<char>,
    space: Seq<char>,
    value: Seq<char>,
    after: Seq<char>,
)
    requires
        crate::text::all_space(gap),
        crate::text::all_space(space),
        !value.contains('"'),
        forall|j: int|
            0 <= j < before.len() ==> !("\""@ + key + "\""@).is_prefix_of(
                #[trigger] (before + ("\""@ + key + "\""@) + gap + seq![':'] + space + seq!['"'] + value
                    + seq!['"'] + after).skip(j),
            ),
    ensures
        string_value(
            before + ("\""@ + key + "\""@) + gap + seq![':'] + space + seq!['"'] + value + seq!['"']
                + after,
            key,
        ) == Some(value),
{
    let needle = "\""@ + key + "\""@;
    let tail2 = seq!['"'] + value + seq!['"'] + after;
    let tail1 = seq![':'] + (space + tail2);
    let text = before + needle + gap + seq![':'] + space + seq!['"'] + value + seq!['"'] + after;
    let at = before.len() as int;
    let rest = needle + (gap + tail1);
    assert(text.skip(at) =~= rest);
    assert(rest.subrange(0, needle.len() as int) =~= needle);
    assert(needle.is_prefix_of(rest));
    crate::text::a_pattern_is_found_where_it_begins(text, needle, at);
    assert(text.skip(at + needle.len()) =~= gap + tail1);
    crate::text::leading_space_is_dropped(gap, tail1);
    assert(tail1.skip(1) =~= space + tail2);
    crate::text::leading_space_is_dropped(space, tail2);
    let inner = tail2.skip(1);
    assert(inner =~= value + seq!['"'] + after);
    crate::text::lemma_find_char(inner, '"');
    let end = find_char(inner, '"');
    assert(inner[value.len() as int] == '"');
    if end < value.len() {
        assert(value[end] == inner[end]);
        assert(value.contains('"'));
    }
    assert(inner.take(end) =~= value);
}

/// A manifest whose library is named by a path has it exactly where that is on disk; a bare name is left
/// to the loader, and a manifest that names none has none.
pub proof fn a_library_is_there_or_left_to_the_loader(manifest: Seq<char>, on_disk: bool)
    ensures
        string_value(manifest, "library_path"@) is None ==> !library_there(manifest, on_disk),
        string_value(manifest, "library_path"@) is Some && string_value(
            manifest,
            "library_path"@,
        )->0.contains('/') ==> library_there(manifest, on_disk) == on_disk,
        string_value(manifest, "library_path"@) is Some && !string_value(
            manifest,
            "library_path"@,
        )->0.contains('/') ==> library_there(manifest, on_disk),
{
}

/// The vendor of a Vulkan driver is the one that the name of its manifest speaks of, in any case.
pub proof fn manifests_name_their_vendor(file: Seq<char>)
    ensures
        contains(ascii_lowercase(file), "nvidia"@) ==> vendor_in(file) == Vendor::Nvidia,
        !contains(ascii_lowercase(file), "nvidia"@) && (contains(ascii_lowercase(file), "radeon"@)
            || contains(ascii_lowercase(file), "amd"@)) ==> vendor_in(file) == Vendor::Amd,
        !contains(ascii_lowercase(file), "nvidia"@) && !contains(ascii_lowercase(file), "radeon"@)
            && !contains(ascii_lowercase(file), "amd"@) ==> (vendor_in(file) == Vendor::Intel
            <==> contains(ascii_lowercase(file), "intel"@)),
{
}

/// Every JSON file among the manifests is a driver, once for each name, and of several with a name the
/// first is the one that counts; other files are none.
pub proof fn each_manifest_counts_once(files: Seq<IcdFileModel>, f: IcdFileModel)
    ensures
        ".json"@.is_suffix_of(f.file) && (forall|i: int|
            0 <= i < icds_in(files).len() ==> (#[trigger] icds_in(files)[i]).file != f.file) ==> icds_in(
            files.push(f),
        ) == icds_in(files).push(
            IcdModel {
                file: f.file,
                vendor: vendor_in(f.file),
                library_present: library_there(f.text, f.library_on_disk),
            },
        ),
        !".json"@.is_suffix_of(f.file) ==> icds_in(files.push(f)) == icds_in(files),
        (exists|i: int| 0 <= i < icds_in(files).len() && (#[trigger] icds_in(files)[i]).file == f.file)
            ==> icds_in(files.push(f)) == icds_in(files),
{
    assert(files.push(f).drop_last() =~= files);
}

/// The name that people know a card by is the one in brackets behind the chip's own.
pub proof fn the_retail_name_is_in_brackets(chip: Seq<char>, retail: Seq<char>, plain: Seq<char>)
    requires
        !chip.contains('['),
        retail.len() > 0,
        !plain.contains('['),
    ensures
        retail_name(chip + seq!['['] + retail + seq![']']) == retail,
        retail_name(plain) == plain,
{
    let s = chip + seq!['['] + retail + seq![']'];
    crate::text::lemma_find_char(s, '[');
    let open = find_char(s, '[');
    assert(s[chip.len() as int] == '[');
    if open < chip.len() {
        assert(chip[open] == '[');
    }
    assert(s.last() == ']');
    assert(rfind_char(s, ']') == Some(s.len() - 1));
    assert(s.subrange(open + 1, s.len() - 1) =~= retail);
    crate::text::lemma_find_char(plain, '[');
    if find_char(plain, '[') < plain.len() {
        assert(plain.contains(plain[find_char(plain, '[')]));
    }
}

/// A card's name is found under its vendor: behind the vendor's line, whatever devices stand between,
/// the line of the device gives it. Nothing of another vendor is taken for it.
pub proof fn a_device_is_named_under_its_vendor(
    before: Seq<Seq<char>>,
    vendor_line: Seq<char>,
    between: Seq<Seq<char>>,
    name: Seq<char>,
    after: Seq<Seq<char>>,
    vendor: Seq<char>,
    device: Seq<char>,
)
    requires
        vendor.len() > 0 && vendor[0] != '\t' && vendor[0] != '#',
        device.len() > 1 && device[0] == '\t' && device[1] != '\t',
        !crate::text::is_space(device[1]),
        vendor.is_prefix_of(vendor_line),
        trim(vendor_line).len() > 0,
        forall|i: int| 0 <= i < before.len() ==> !vendor.is_prefix_of(#[trigger] before[i]),
        forall|i: int|
            0 <= i < between.len() ==> "\t"@.is_prefix_of(#[trigger] between[i]) && !device.is_prefix_of(
                between[i],
            ),
    ensures
        device_in(before + seq![vendor_line] + between + seq![device + name] + after, vendor, device, false)
            == Some(retail_name(trim(name))),
    decreases before.len(),
{
    reveal_strlit("\t");
    reveal_strlit("\t\t");
    reveal_strlit("#");
    let line = device + name;
    let all = before + seq![vendor_line] + between + seq![line] + after;
    if before.len() > 0 {
        let rest = all.skip(1);
        assert(rest =~= before.skip(1) + seq![vendor_line] + between + seq![line] + after);
        assert(all[0] == before[0]);
        assert(!vendor.is_prefix_of(before[0]));
        assert forall|i: int| 0 <= i < before.skip(1).len() implies !vendor.is_prefix_of(
            #[trigger] before.skip(1)[i],
        ) by {
            assert(!vendor.is_prefix_of(before[i + 1]));
        }
        a_device_is_named_under_its_vendor(
            before.skip(1),
            vendor_line,
            between,
            name,
            after,
            vendor,
            device,
        );
    } else {
        assert(all[0] == vendor_line);
        assert(all.skip(1) =~= between + seq![line] + after);
        assert(vendor_line.subrange(0, vendor.len() as int)[0] == vendor[0]);
        assert(vendor_line[0] == vendor[0]);
        if "#"@.is_prefix_of(vendor_line) {
            assert(vendor_line.subrange(0, 1)[0] == '#');
        }
        if "\t"@.is_prefix_of(vendor_line) {
            assert(vendor_line.subrange(0, 1)[0] == '\t');
        }
        lemma_device_between(between, name, after, vendor, device);
    }
}

proof fn lemma_device_between(
    between: Seq<Seq<char>>,
    name: Seq<char>,
    after: Seq<Seq<char>>,
    vendor: Seq<char>,
    device: Seq<char>,
)
    requires
        device.len() > 1 && device[0] == '\t' && device[1] != '\t',
        !crate::text::is_space(device[1]),
        forall|i: int|
            0 <= i < between.len() ==> "\t"@.is_prefix_of(#[trigger] between[i]) && !device.is_prefix_of(
                between[i],
            ),
    ensures
        device_in(between + seq![device + name] + after, vendor, device, true) == Some(
            retail_name(trim(name)),
        ),
    decreases between.len(),
{
    reveal_strlit("\t");
    reveal_strlit("\t\t");
    reveal_strlit("#");
    let line = device + name;
    let all = between + seq![line] + after;
    if between.len() > 0 {
        assert(all[0] == between[0]);
        assert(all.skip(1) =~= between.skip(1) + seq![line] + after);
        assert("\t"@.is_prefix_of(between[0]) && !device.is_prefix_of(between[0]));
        assert forall|i: int| 0 <= i < between.skip(1).len() implies "\t"@.is_prefix_of(
            #[trigger] between.skip(1)[i],
        ) && !device.is_prefix_of(between.skip(1)[i]) by {
            assert("\t"@.is_prefix_of(between[i + 1]));
        }
        lemma_device_between(between.skip(1), name, after, vendor, device);
    } else {
        assert(all[0] == line);
        assert(line[0] == '\t' && line[1] == device[1]);
        assert(line.subrange(0, 1) =~= "\t"@);
        if "#"@.is_prefix_of(line) {
            assert(line.subrange(0, 1)[0] == '#');
        }
        if "\t\t"@.is_prefix_of(line) {
            assert(line.subrange(0, 2)[1] == '\t');
        }
        assert(line.subrange(0, device.len() as int) =~= device);
        assert(line.skip(device.len() as int) =~= name);
        crate::text::trimming_takes_only_space(line);
        if trim(line).len() == 0 {
            let (b, a) = choose|b: Seq<char>, a: Seq<char>|
                #![trigger crate::text::all_space(b), crate::text::all_space(a)]
                crate::text::all_space(b) && crate::text::all_space(a) && line == b + trim(line) + a;
            let both = b + a;
            assert(line =~= both);
            if 1 < b.len() {
                assert(crate::text::is_space(b[1]));
            } else {
                assert(crate::text::is_space(a[1 - b.len()]));
            }
        }
    }
}

/// An id of the bus is said with four hexadecimal digits, whatever its size.
pub proof fn ids_are_said_in_four_digits(a: int, b: int, c: int, d: int, id: u16)
    requires
        0 <= a < 16,
        0 <= b < 16,
        0 <= c < 16,
        0 <= d < 16,
        id == 4096 * a + 256 * b + 16 * c + d,
    ensures
        id_text(id) == seq![digit_char(a), digit_char(b), digit_char(c), digit_char(d)],
{
    let zeros: Seq<char> = seq!['0', '0', '0', '0'];
    let one = seq![digit_char(d)];
    let two = seq![digit_char(c), digit_char(d)];
    let three = seq![digit_char(b), digit_char(c), digit_char(d)];
    let four = seq![digit_char(a), digit_char(b), digit_char(c), digit_char(d)];
    assert(digit_char(0) == '0');
    crate::number::padding_fills_up_with_zeros(one, zeros.take(3));
    crate::number::padding_fills_up_with_zeros(two, zeros.take(2));
    crate::number::padding_fills_up_with_zeros(three, zeros.take(1));
    crate::number::padding_fills_up_with_zeros(four, zeros.take(0));
    if a > 0 {
        crate::number::hexadecimals_are_written_place_by_place(a, b);
    }
    if 16 * a + b > 0 {
        crate::number::hexadecimals_are_written_place_by_place(16 * a + b, c);
    }
    if 256 * a + 16 * b + c > 0 {
        crate::number::hexadecimals_are_written_place_by_place(256 * a + 16 * b + c, d);
    }
    assert(16 * (16 * a + b) + c == 256 * a + 16 * b + c);
    assert(16 * (256 * a + 16 * b + c) + d == id);
    if a > 0 {
        assert(written(id as int, 16) =~= four);
    } else if b > 0 {
        assert(written(id as int, 16) =~= three);
        assert(zeros.take(1) + three =~= four);
    } else if c > 0 {
        assert(written(id as int, 16) =~= two);
        assert(zeros.take(2) + two =~= four);
    } else {
        assert(written(id as int, 16) =~= one);
        assert(zeros.take(3) + one =~= four);
    }
}

/// A driver is called by its own name, and one that is not known by the name of its module.
pub proof fn drivers_are_called_by_their_names(d: DriverKind)
    ensures
        d is NvidiaProprietary ==> driver_label(d) == "NVIDIA driver"@,
        d is Nouveau ==> driver_label(d) == "Nouveau"@,
        d is Amdgpu ==> driver_label(d) == "amdgpu"@,
        d is Radeon ==> driver_label(d) == "radeon"@,
        d is Intel ==> driver_label(d) == "Intel"@,
        d is Unbound ==> driver_label(d) == "No driver"@,
{
}

} // verus!
