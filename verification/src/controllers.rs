//! Game controllers: what is plugged in, whether a game can see it, and what it just did.
//!
//! The kernel publishes everything in one text file: names, buses, ids, nodes, and the capability
//! bitmaps that say whether a thing is a gamepad at all. A gamepad is told by its buttons and not
//! by its name: the codes from `BTN_GAMEPAD` up are the face buttons, and only a gamepad claims
//! them. A joystick or wheel claims `BTN_TRIGGER` instead.
use vstd::arithmetic::power2::{lemma2_to64, lemma_pow2_pos, pow2};
use vstd::bits::lemma_u64_shr_is_div;
use vstd::prelude::*;
use crate::collections::NameSet;
use crate::gpu::{file_number, is_numbered, numbered, read_num};
use crate::lists::{
    first_where, lemma_filter_map_step, lemma_first_index, lemma_first_is, lemma_first_none,
};
use crate::number::{
    digit_value, hex_of, hex_u16_of, read_hex_u16, read_unsigned, unsigned, value_of_digit, written,
};
use crate::path::{file_name, joined_path, join, name_of_path, parts_of, path_parts};
use crate::text::{
    after_prefix, cat2, cat3, chars_of, contains, cut, holds,
    joined, lines, lines_of, part, pieces, pieces_at, reads, same, split,
    split_once, split_text, string_of, strip_prefix, texts, trim, trim_char, trim_end,
    trim_start_char, trim_start_text, trimmed, trimmed_char, trimmed_end, trimmed_start_char,
    trimmed_start_text, words, words_of,
};

verus! {

/// The first face button. Everything from here to 0x13f is a gamepad button, and claiming any of
/// them is what makes a device a gamepad.
pub const BTN_GAMEPAD: usize = 0x130;

/// The first joystick button, for sticks, wheels and flight gear.
pub const BTN_JOYSTICK: usize = 0x120;

#[derive(Debug, Clone, Copy, PartialEq, Eq, Structural)]
pub enum Transport {
    Usb,
    Bluetooth,
    Virtual,
    Other,
}

/// The transport behind one of the `BUS_*` numbers of `input.h`.
pub open spec fn transport_of(bus: u16) -> Transport {
    if bus == 0x03 {
        Transport::Usb
    } else if bus == 0x05 {
        Transport::Bluetooth
    } else if bus == 0x06 {
        Transport::Virtual
    } else {
        Transport::Other
    }
}

impl Transport {
    /// The transport behind one of the `BUS_*` numbers of `input.h`.
    pub fn from_bus(bus: u16) -> (r: Transport)
        ensures
            r == transport_of(bus),
    {
        match bus {
            0x03 => Transport::Usb,
            0x05 => Transport::Bluetooth,
            0x06 => Transport::Virtual,
            _ => Transport::Other,
        }
    }

    pub fn name(self) -> (r: &'static str)
        ensures
            r@ == (match self {
                Transport::Usb => "USB"@,
                Transport::Bluetooth => "Bluetooth"@,
                Transport::Virtual => "Virtual"@,
                Transport::Other => "Other"@,
            }),
    {
        match self {
            Transport::Usb => "USB",
            Transport::Bluetooth => "Bluetooth",
            Transport::Virtual => "Virtual",
            Transport::Other => "Other",
        }
    }
}

#[derive(Debug, Clone, PartialEq, Eq)]
pub struct Controller {
    pub name: String,
    pub vendor: u16,
    pub product: u16,
    pub transport: Transport,
    /// `/dev/input/eventN`, which is what a game opens.
    pub event: Option<String>,
    /// `/dev/input/jsN`, the old joystick interface some games still want.
    pub joystick: Option<String>,
    /// The kernel path, used to find the driver and the battery.
    pub sysfs: String,
    pub has_rumble: bool,
    /// Whether it is a full gamepad rather than a stick or a wheel.
    pub is_gamepad: bool,
    pub axes: u32,
    pub buttons: u32,
}

/// What is known of a controller.
#[verifier::ext_equal]
pub struct ControllerModel {
    pub name: Seq<char>,
    pub vendor: u16,
    pub product: u16,
    pub transport: Transport,
    pub event: Option<Seq<char>>,
    pub joystick: Option<Seq<char>>,
    pub sysfs: Seq<char>,
    pub has_rumble: bool,
    pub is_gamepad: bool,
    pub axes: int,
    pub buttons: int,
}

impl DeepView for Controller {
    type V = ControllerModel;

    open spec fn deep_view(&self) -> ControllerModel {
        ControllerModel {
            name: self.name@,
            vendor: self.vendor,
            product: self.product,
            transport: self.transport,
            event: self.event.deep_view(),
            joystick: self.joystick.deep_view(),
            sysfs: self.sysfs@,
            has_rumble: self.has_rumble,
            is_gamepad: self.is_gamepad,
            axes: self.axes as int,
            buttons: self.buttons as int,
        }
    }
}

// ---------------------------------------------------------------------------
// Capability bitmaps
// ---------------------------------------------------------------------------

/// The hexadecimal word that a text writes, or 0.
pub open spec fn hex_word(s: Seq<char>) -> u64 {
    match unsigned(s, 16, u64::MAX as int) {
        Some(v) => v as u64,
        None => 0,
    }
}

/// A kernel capability bitmap, which is printed high word first: the word at place 0 holds bits 0
/// to 63.
pub open spec fn bitmap_of(text: Seq<char>) -> Seq<u64> {
    words(text).reverse().map_values(|w: Seq<char>| hex_word(w))
}

/// A kernel capability bitmap, low word first.
pub fn bitmap(text: &str) -> (r: Vec<u64>)
    ensures
        r@ == bitmap_of(text@),
{
    read_bitmap(&chars_of(text))
}

fn read_bitmap(text: &[char]) -> (r: Vec<u64>)
    ensures
        r@ == bitmap_of(text@),
{
    let all = words_of(text);
    let ghost every = texts(all@);
    let ghost goal = bitmap_of(text@);
    let mut out: Vec<u64> = Vec::new();
    let mut left: usize = all.len();
    while left > 0
        invariant
            left <= all.len(),
            every == texts(all@),
            every == words(text@),
            goal == bitmap_of(text@),
            out@ == goal.take(all.len() - left),
        decreases left,
    {
        let ghost before = out@;
        left = left - 1;
        assert(every[left as int] == all@[left as int]@);
        let word: u64 = match read_unsigned(all[left], 16, u64::MAX) {
            Some(v) => v,
            None => 0,
        };
        out.push(word);
        assert(goal[all.len() - left - 1] == word);
        assert(out@ =~= goal.take(all.len() - left));
    }
    assert(goal.take(all@.len() as int) =~= goal);
    out
}

/// A bit of a bitmap is set; one past the end is not.
pub open spec fn has_bit(bits: Seq<u64>, bit: int) -> bool {
    0 <= bit / 64 < bits.len() && (bits[bit / 64] as int / pow2((bit % 64) as nat) as int) % 2 == 1
}

/// Whether a bit of a bitmap is set.
pub fn bit_set(bitmap: &[u64], bit: usize) -> (r: bool)
    ensures
        r == has_bit(bitmap@, bit as int),
{
    let at: usize = bit / 64;
    if at >= bitmap.len() {
        return false;
    }
    let word: u64 = bitmap[at];
    let shift: u64 = (bit % 64) as u64;
    let moved: u64 = word >> shift;
    proof {
        lemma_u64_shr_is_div(word, shift);
        lemma_pow2_pos(shift as nat);
    }
    moved % 2 == 1
}

/// A bit in a range of sixteen is set.
pub open spec fn any_bit(bits: Seq<u64>, first: int) -> bool {
    exists|bit: int| first <= bit <= first + 0x0f && #[trigger] has_bit(bits, bit)
}

fn any_bit_set(bits: &Vec<u64>, first: usize) -> (r: bool)
    requires
        first <= 0xffff,
    ensures
        r == any_bit(bits@, first as int),
{
    let mut bit: usize = first;
    while bit <= first + 0x0f
        invariant
            first <= 0xffff,
            first <= bit <= first + 0x10,
            forall|b: int| first <= b < bit ==> !#[trigger] has_bit(bits@, b),
        decreases first + 0x10 - bit,
    {
        if bit_set(bits, bit) {
            return true;
        }
        bit = bit + 1;
    }
    false
}

/// How many ones a number has in binary.
pub open spec fn ones(n: int) -> int
    decreases n,
{
    if n <= 0 {
        0
    } else {
        n % 2 + ones(n / 2)
    }
}

/// How many ones the words of a bitmap have.
pub open spec fn ones_in(bits: Seq<u64>) -> int
    decreases bits.len(),
{
    if bits.len() == 0 {
        0
    } else {
        ones_in(bits.drop_last()) + ones(bits.last() as int)
    }
}

proof fn lemma_ones(n: int, k: nat)
    requires
        0 <= n < pow2(k),
    ensures
        0 <= ones(n) <= k,
    decreases k,
{
    if n > 0 {
        vstd::arithmetic::power2::lemma_pow2(k);
        if k == 0 {
            lemma2_to64();
        } else {
            vstd::arithmetic::power2::lemma_pow2_unfold(k);
            lemma_ones(n / 2, (k - 1) as nat);
        }
    }
}

proof fn lemma_ones_in(bits: Seq<u64>, n: int)
    requires
        0 <= n <= bits.len(),
    ensures
        0 <= ones_in(bits.take(n)) <= ones_in(bits) <= 64 * bits.len(),
    decreases bits.len(),
{
    if bits.len() == 0 {
        assert(bits.take(n) =~= bits);
    } else {
        lemma2_to64();
        lemma_ones(bits.last() as int, 64);
        if n < bits.len() {
            lemma_ones_in(bits.drop_last(), n);
            assert(bits.drop_last().take(n) =~= bits.take(n));
        } else {
            lemma_ones_in(bits.drop_last(), 0);
            assert(bits.take(n) =~= bits);
        }
    }
}

fn count_ones(word: u64) -> (r: u32)
    ensures
        r == ones(word as int),
        r <= 64,
{
    proof {
        lemma2_to64();
        lemma_ones(word as int, 64);
    }
    let mut rest: u64 = word;
    let mut count: u32 = 0;
    while rest > 0
        invariant
            count + ones(rest as int) == ones(word as int),
            ones(word as int) <= 64,
            ones(rest as int) >= 0,
        decreases rest,
    {
        proof {
            lemma2_to64();
            lemma_ones(rest as int / 2, 64);
        }
        count = count + (rest % 2) as u32;
        rest = rest / 2;
    }
    count
}

fn count_all(bits: &Vec<u64>) -> (r: u32)
    requires
        ones_in(bits@) <= u32::MAX,
    ensures
        r == ones_in(bits@),
{
    let mut count: u32 = 0;
    let mut i: usize = 0;
    while i < bits.len()
        invariant
            i <= bits.len(),
            ones_in(bits@) <= u32::MAX,
            count == ones_in(bits@.take(i as int)),
        decreases bits.len() - i,
    {
        assert(bits@.take(i + 1).drop_last() =~= bits@.take(i as int));
        proof {
            lemma_ones_in(bits@, i + 1);
        }
        count = count + count_ones(bits[i]);
        i = i + 1;
    }
    assert(bits@.take(i as int) =~= bits@);
    count
}

// ---------------------------------------------------------------------------
// The device list
// ---------------------------------------------------------------------------

/// What the lines of a device's block say.
#[verifier::ext_equal]
pub struct BlockModel {
    pub bus: u16,
    pub vendor: u16,
    pub product: u16,
    pub name: Seq<char>,
    pub sysfs: Seq<char>,
    pub handlers: Seq<Seq<char>>,
    pub ev: u32,
    pub key_bits: Seq<u64>,
    pub abs_bits: Seq<u64>,
}

struct Block {
    bus: u16,
    vendor: u16,
    product: u16,
    name: String,
    sysfs: String,
    handlers: Vec<String>,
    ev: u32,
    key_bits: Vec<u64>,
    abs_bits: Vec<u64>,
}

impl Block {
    spec fn model(&self) -> BlockModel {
        BlockModel {
            bus: self.bus,
            vendor: self.vendor,
            product: self.product,
            name: self.name@,
            sysfs: self.sysfs@,
            handlers: self.handlers.deep_view(),
            ev: self.ev,
            key_bits: self.key_bits@,
            abs_bits: self.abs_bits@,
        }
    }
}

/// A block of which nothing has been read.
pub open spec fn empty_block() -> BlockModel {
    BlockModel {
        bus: 0,
        vendor: 0,
        product: 0,
        name: Seq::empty(),
        sysfs: Seq::empty(),
        handlers: Seq::empty(),
        ev: 0,
        key_bits: Seq::empty(),
        abs_bits: Seq::empty(),
    }
}

/// The sixteen-bit id that a text writes in hexadecimal, or 0.
pub open spec fn id_or_zero(s: Seq<char>) -> u16 {
    match hex_u16_of(s) {
        Some(v) => v,
        None => 0,
    }
}

/// A block after one `Key=value` field of its `I:` line.
pub open spec fn with_id(b: BlockModel, field: Seq<char>) -> BlockModel {
    match split_once(field, '=') {
        Some((key, value)) => if key == "Bus"@ {
            BlockModel { bus: id_or_zero(value), ..b }
        } else if key == "Vendor"@ {
            BlockModel { vendor: id_or_zero(value), ..b }
        } else if key == "Product"@ {
            BlockModel { product: id_or_zero(value), ..b }
        } else {
            b
        },
        None => b,
    }
}

/// A block after the fields of its `I:` line.
pub open spec fn with_ids(b: BlockModel, fields: Seq<Seq<char>>) -> BlockModel
    decreases fields.len(),
{
    if fields.len() == 0 {
        b
    } else {
        with_id(with_ids(b, fields.drop_last()), fields.last())
    }
}

/// The 32-bit number that a text writes in hexadecimal, or 0.
pub open spec fn hex_u32_or_zero(s: Seq<char>) -> u32 {
    match unsigned(s, 16, u32::MAX as int) {
        Some(v) => v as u32,
        None => 0,
    }
}

/// A block after what follows `B: ` on one of its lines.
pub open spec fn with_bits(b: BlockModel, rest: Seq<char>) -> BlockModel {
    match strip_prefix(rest, "EV="@) {
        Some(value) => BlockModel { ev: hex_u32_or_zero(trim(value)), ..b },
        None => match strip_prefix(rest, "KEY="@) {
            Some(value) => BlockModel { key_bits: bitmap_of(value), ..b },
            None => match strip_prefix(rest, "ABS="@) {
                Some(value) => BlockModel { abs_bits: bitmap_of(value), ..b },
                None => b,
            },
        },
    }
}

/// A block after one of its lines; a later line replaces what an earlier one of its kind said.
pub open spec fn with_line(b: BlockModel, raw: Seq<char>) -> BlockModel {
    let line = trim_end(raw);
    match strip_prefix(line, "I: "@) {
        Some(rest) => with_ids(b, words(rest)),
        None => match strip_prefix(line, "N: "@) {
            Some(rest) => BlockModel {
                name: trim_char(trim_start_text(rest, "Name="@), '"'),
                ..b
            },
            None => match strip_prefix(line, "S: "@) {
                Some(rest) => BlockModel { sysfs: trim_start_text(rest, "Sysfs="@), ..b },
                None => match strip_prefix(line, "H: "@) {
                    Some(rest) => BlockModel {
                        handlers: words(trim_start_text(rest, "Handlers="@)),
                        ..b
                    },
                    None => match strip_prefix(line, "B: "@) {
                        Some(rest) => with_bits(b, rest),
                        None => b,
                    },
                },
            },
        },
    }
}

/// What the lines of a block say.
pub open spec fn block_of(lines: Seq<Seq<char>>) -> BlockModel
    decreases lines.len(),
{
    if lines.len() == 0 {
        empty_block()
    } else {
        with_line(block_of(lines.drop_last()), lines.last())
    }
}

/// The node of a device: the first of its handlers that is a prefix and a number.
pub open spec fn node_of(handlers: Seq<Seq<char>>, prefix: Seq<char>) -> Option<Seq<char>> {
    match first_where(handlers, |h: Seq<char>| is_numbered(h, prefix)) {
        Some(h) => Some("/dev/input/"@ + h),
        None => None,
    }
}

/// A block describes a controller: it has a name, and it claims face buttons, or trigger buttons
/// and axes, or has a joystick node.
pub open spec fn is_controller(b: BlockModel) -> bool {
    b.name.len() > 0 && (any_bit(b.key_bits, 0x130) || (any_bit(b.key_bits, 0x120) && claims_axes(b))
        || node_of(b.handlers, "js"@) is Some)
}

/// A block claims axes: it says that it has some, and which.
pub open spec fn claims_axes(b: BlockModel) -> bool {
    (b.ev as int / 8) % 2 == 1 && ones_in(b.abs_bits) > 0
}

/// The controller that a block describes.
pub open spec fn controller_in(b: BlockModel) -> Option<ControllerModel> {
    if is_controller(b) {
        Some(
            ControllerModel {
                name: b.name,
                vendor: b.vendor,
                product: b.product,
                transport: transport_of(b.bus),
                event: node_of(b.handlers, "event"@),
                joystick: node_of(b.handlers, "js"@),
                sysfs: b.sysfs,
                has_rumble: (b.ev as int / 0x20_0000) % 2 == 1,
                is_gamepad: any_bit(b.key_bits, 0x130),
                axes: ones_in(b.abs_bits),
                buttons: ones_in(b.key_bits),
            },
        )
    } else {
        None
    }
}

/// The controller that the text of a block describes.
pub open spec fn device_of(block: Seq<char>) -> Option<ControllerModel> {
    controller_in(block_of(lines(block)))
}

/// A block's counts of axes and buttons fit in 32 bits.
pub open spec fn counts_fit(block: Seq<char>) -> bool {
    let b = block_of(lines(block));
    ones_in(b.key_bits) <= u32::MAX && ones_in(b.abs_bits) <= u32::MAX
}

fn read_ids(b: &mut Block, rest: &[char])
    ensures
        final(b).model() == with_ids(old(b).model(), words(rest@)),
{
    let fields = words_of(rest);
    let ghost every = texts(fields@);
    let ghost start = b.model();
    let mut i: usize = 0;
    while i < fields.len()
        invariant
            i <= fields.len(),
            every == texts(fields@),
            every == words(rest@),
            b.model() == with_ids(start, every.take(i as int)),
        decreases fields.len() - i,
    {
        assert(every.take(i + 1).drop_last() =~= every.take(i as int));
        assert(every.take(i + 1).last() == fields@[i as int]@);
        if let Some((key, value)) = cut(fields[i], '=') {
            let parsed: u16 = match read_hex_u16(value) {
                Some(v) => v,
                None => 0,
            };
            if reads(key, "Bus") {
                b.bus = parsed;
            } else if reads(key, "Vendor") {
                b.vendor = parsed;
            } else if reads(key, "Product") {
                b.product = parsed;
            }
        }
        i = i + 1;
    }
    assert(every.take(i as int) =~= every);
}

/// The words of a text, as strings.
fn word_strings(s: &[char]) -> (r: Vec<String>)
    ensures
        r.deep_view() == words(s@),
{
    let all = words_of(s);
    let ghost every = texts(all@);
    let mut out: Vec<String> = Vec::new();
    let mut i: usize = 0;
    while i < all.len()
        invariant
            i <= all.len(),
            every == texts(all@),
            out.deep_view() == every.take(i as int),
        decreases all.len() - i,
    {
        let ghost before = out.deep_view();
        out.push(string_of(all[i]));
        assert(out.deep_view() =~= before.push(every[i as int]));
        i = i + 1;
        assert(out.deep_view() =~= every.take(i as int));
    }
    assert(every.take(i as int) =~= every);
    out
}

fn read_bits(b: &mut Block, rest: &[char])
    ensures
        final(b).model() == with_bits(old(b).model(), rest@),
{
    if let Some(value) = after_prefix(rest, &chars_of("EV=")) {
        b.ev = match read_unsigned(trimmed(value), 16, 0xffff_ffff) {
            Some(v) => v as u32,
            None => 0,
        };
    } else if let Some(value) = after_prefix(rest, &chars_of("KEY=")) {
        b.key_bits = read_bitmap(value);
    } else if let Some(value) = after_prefix(rest, &chars_of("ABS=")) {
        b.abs_bits = read_bitmap(value);
    }
}

fn read_line(b: &mut Block, raw: &[char])
    ensures
        final(b).model() == with_line(old(b).model(), raw@),
{
    let line = trimmed_end(raw);
    if let Some(rest) = after_prefix(line, &chars_of("I: ")) {
        read_ids(b, rest);
    } else if let Some(rest) = after_prefix(line, &chars_of("N: ")) {
        b.name = string_of(trimmed_char(trimmed_start_text(rest, "Name="), '"'));
    } else if let Some(rest) = after_prefix(line, &chars_of("S: ")) {
        b.sysfs = string_of(trimmed_start_text(rest, "Sysfs="));
    } else if let Some(rest) = after_prefix(line, &chars_of("H: ")) {
        b.handlers = word_strings(trimmed_start_text(rest, "Handlers="));
    } else if let Some(rest) = after_prefix(line, &chars_of("B: ")) {
        read_bits(b, rest);
    }
}

fn read_block(block: &[char]) -> (r: Block)
    ensures
        r.model() == block_of(lines(block@)),
{
    let all = lines_of(block);
    let ghost every = texts(all@);
    let mut b = Block {
        bus: 0,
        vendor: 0,
        product: 0,
        name: String::new(),
        sysfs: String::new(),
        handlers: Vec::new(),
        ev: 0,
        key_bits: Vec::new(),
        abs_bits: Vec::new(),
    };
    assert(b.model() =~= empty_block()) by {
        assert(b.handlers.deep_view() =~= Seq::empty());
    }
    let mut i: usize = 0;
    while i < all.len()
        invariant
            i <= all.len(),
            every == texts(all@),
            b.model() == block_of(every.take(i as int)),
        decreases all.len() - i,
    {
        assert(every.take(i + 1).drop_last() =~= every.take(i as int));
        assert(every.take(i + 1).last() == all@[i as int]@);
        read_line(&mut b, all[i]);
        i = i + 1;
    }
    assert(every.take(i as int) =~= every);
    b
}

fn find_node(handlers: &Vec<String>, prefix: &str) -> (r: Option<String>)
    ensures
        r.deep_view() == node_of(handlers.deep_view(), prefix@),
{
    let ghost every = handlers.deep_view();
    let ghost p = |h: Seq<char>| is_numbered(h, prefix@);
    let mut i: usize = 0;
    while i < handlers.len()
        invariant
            i <= handlers.len(),
            every == handlers.deep_view(),
            p == (|h: Seq<char>| is_numbered(h, prefix@)),
            forall|j: int| 0 <= j < i ==> !p(#[trigger] every[j]),
        decreases handlers.len() - i,
    {
        assert(every[i as int] == handlers@[i as int]@);
        if numbered(&chars_of(&handlers[i]), prefix) {
            proof {
                lemma_first_is(every, p, i as int);
            }
            return Some(cat2("/dev/input/", &handlers[i]));
        }
        i = i + 1;
    }
    proof {
        lemma_first_none(every, p);
    }
    None
}

fn describe(block: &[char]) -> (r: Option<Controller>)
    requires
        counts_fit(block@),
    ensures
        r.deep_view() == device_of(block@),
{
    let b = read_block(block);
    if chars_of(&b.name).len() == 0 {
        return None;
    }
    let is_gamepad: bool = any_bit_set(&b.key_bits, BTN_GAMEPAD);
    let is_joystick: bool = any_bit_set(&b.key_bits, BTN_JOYSTICK);
    let axes: u32 = count_all(&b.abs_bits);
    let has_axes: bool = (b.ev / 8) % 2 == 1 && axes > 0;
    let joystick = find_node(&b.handlers, "js");
    if !(is_gamepad || (is_joystick && has_axes) || joystick.is_some()) {
        return None;
    }
    let event = find_node(&b.handlers, "event");
    let buttons: u32 = count_all(&b.key_bits);
    Some(
        Controller {
            vendor: b.vendor,
            product: b.product,
            transport: Transport::from_bus(b.bus),
            event,
            joystick,
            has_rumble: (b.ev / 0x20_0000) % 2 == 1,
            is_gamepad,
            axes,
            buttons,
            name: b.name,
            sysfs: b.sysfs,
        },
    )
}

/// The controller that a block of the kernel's device list describes.
pub fn parse_device(block: &str) -> (r: Option<Controller>)
    requires
        counts_fit(block@),
    ensures
        r.deep_view() == device_of(block@),
{
    describe(&chars_of(block))
}

/// The controllers among the blocks of the kernel's device list.
pub open spec fn devices_of(text: Seq<char>) -> Seq<ControllerModel> {
    split_text(text, "\n\n"@).filter_map(|block: Seq<char>| device_of(block))
}

/// In every block the counts of axes and buttons fit in 32 bits.
pub open spec fn all_counts_fit(text: Seq<char>) -> bool {
    forall|i: int|
        0 <= i < split_text(text, "\n\n"@).len() ==> counts_fit(
            #[trigger] split_text(text, "\n\n"@)[i],
        )
}

/// Parses the kernel's device list.
pub fn parse_devices(text: &str) -> (r: Vec<Controller>)
    requires
        all_counts_fit(text@),
    ensures
        r.deep_view() == devices_of(text@),
{
    let chars = chars_of(text);
    proof {
        reveal_strlit("\n\n");
    }
    let blocks = pieces_at(&chars, "\n\n");
    let ghost every = texts(blocks@);
    let ghost f = |block: Seq<char>| device_of(block);
    let mut out: Vec<Controller> = Vec::new();
    let mut i: usize = 0;
    while i < blocks.len()
        invariant
            i <= blocks.len(),
            every == texts(blocks@),
            every == split_text(text@, "\n\n"@),
            all_counts_fit(text@),
            f == (|block: Seq<char>| device_of(block)),
            out.deep_view() == every.take(i as int).filter_map(f),
        decreases blocks.len() - i,
    {
        proof {
            lemma_filter_map_step(every, i as int, f);
            assert(every[i as int] == blocks@[i as int]@);
            assert(counts_fit(split_text(text@, "\n\n"@)[i as int]));
        }
        let ghost before = out.deep_view();
        if let Some(controller) = describe(blocks[i]) {
            let ghost c = controller.deep_view();
            out.push(controller);
            assert(out.deep_view() =~= before.push(c));
        }
        i = i + 1;
    }
    assert(every.take(i as int) =~= every);
    out
}

/// Every controller the kernel can see, given the text of its device list, or none where that
/// could not be read.
pub fn discover(devices: Option<&str>) -> (r: Vec<Controller>)
    requires
        devices is Some ==> all_counts_fit(devices->0@),
    ensures
        r.deep_view() == (match devices.deep_view() {
            Some(text) => devices_of(text),
            None => Seq::empty(),
        }),
{
    match devices {
        Some(text) => parse_devices(text),
        None => {
            let none: Vec<Controller> = Vec::new();
            assert(none.deep_view() =~= Seq::empty());
            none
        },
    }
}

// ---------------------------------------------------------------------------
// Driver and battery
// ---------------------------------------------------------------------------

/// The parts of the path of a controller's node below `/sys`.
pub open spec fn node_parts(sysfs: Seq<char>) -> Seq<Seq<char>> {
    seq!["sys"@] + path_parts(trim_start_char(sysfs, '/'))
}

/// How many directories are looked in for a driver: the node's own and up to five above it.
pub open spec fn driver_levels(sysfs: Seq<char>) -> int {
    let n = node_parts(sysfs).len() as int;
    if n + 1 < 6 {
        n + 1
    } else {
        6
    }
}

/// The link that names the driver of the directory `up` levels above a controller's node.
pub open spec fn driver_link(sysfs: Seq<char>, up: int) -> Seq<char> {
    let parts = node_parts(sysfs);
    "/"@ + crate::text::join(parts.take(parts.len() - up).push("driver"@), "/"@)
}

/// The first file name among some link targets.
pub open spec fn first_name(targets: Seq<Option<Seq<char>>>) -> Option<Seq<char>>
    decreases targets.len(),
{
    if targets.len() == 0 {
        None
    } else {
        match targets[0] {
            Some(target) => match file_name(target) {
                Some(name) => Some(name),
                None => first_name(targets.skip(1)),
            },
            None => first_name(targets.skip(1)),
        }
    }
}

/// A power supply: its real path, and the texts of its files where they could be read.
#[derive(Debug)]
pub struct PowerSupply {
    pub path: String,
    pub scope: Option<String>,
    pub capacity: Option<String>,
}

/// What is known of a power supply.
#[verifier::ext_equal]
pub struct PowerSupplyModel {
    pub path: Seq<char>,
    pub scope: Option<Seq<char>>,
    pub capacity: Option<Seq<char>>,
}

impl DeepView for PowerSupply {
    type V = PowerSupplyModel;

    open spec fn deep_view(&self) -> PowerSupplyModel {
        PowerSupplyModel {
            path: self.path@,
            scope: self.scope.deep_view(),
            capacity: self.capacity.deep_view(),
        }
    }
}

/// A power supply is the battery of a controller: one in a device that is plugged in, which says
/// how full it is and hangs off the controller's HID device.
pub open spec fn is_battery_of(s: PowerSupplyModel, sysfs: Seq<char>) -> bool {
    &&& s.scope is Some && trim(s.scope->0) == "Device"@
    &&& file_number(s.capacity) is Some
    &&& shares_hid_device(join("/sys"@, trim_start_char(sysfs, '/')), s.path)
}

impl Controller {
    /// The links that may name the kernel module driving this controller, nearest first.
    pub fn driver_links(&self) -> (r: Vec<String>)
        ensures
            r@.len() == driver_levels(self.sysfs@),
            forall|k: int|
                0 <= k < r@.len() ==> (#[trigger] r.deep_view()[k]) == driver_link(self.sysfs@, k),
    {
        let sysfs = chars_of(&self.sysfs);
        let below = parts_of(&string_of(trimmed_start_char(&sysfs, '/')));
        let n: usize = below.len();
        let ghost parts = node_parts(self.sysfs@);
        let mut out: Vec<String> = Vec::new();
        let mut up: usize = 0;
        while up < 6 && (up == 0 || up - 1 <= n)
            invariant
                n == below.len(),
                up <= 6,
                up <= n + 2,
                parts == node_parts(self.sysfs@),
                parts == seq!["sys"@] + below.deep_view(),
                out@.len() == up,
                forall|k: int|
                    0 <= k < up ==> (#[trigger] out.deep_view()[k]) == driver_link(self.sysfs@, k),
            decreases 6 - up,
        {
            let mut kept: Vec<String> = Vec::new();
            let ghost goal = parts.take(parts.len() - up);
            let mut i: usize = 0;
            if up <= n {
                kept.push(String::from_str("sys"));
                while i < n - up
                    invariant
                        n == below.len(),
                        up <= n,
                        i <= n - up,
                        parts == seq!["sys"@] + below.deep_view(),
                        goal == parts.take(parts.len() - up),
                        kept.deep_view() == goal.take(i + 1),
                    decreases n - up - i,
                {
                    let ghost before = kept.deep_view();
                    assert(goal[i + 1] == below.deep_view()[i as int]);
                    kept.push(below[i].clone());
                    assert(kept.deep_view() =~= before.push(goal[i + 1]));
                    i = i + 1;
                    assert(kept.deep_view() =~= goal.take(i + 1));
                }
            }
            assert(kept.deep_view() =~= goal);
            kept.push(String::from_str("driver"));
            assert(kept.deep_view() =~= goal.push("driver"@));
            let ghost before = out.deep_view();
            let link = cat2("/", &joined(&kept, "/"));
            out.push(link);
            assert(out.deep_view() =~= before.push(driver_link(self.sysfs@, up as int)));
            assert forall|k: int| 0 <= k < up + 1 implies (#[trigger] out.deep_view()[k])
                == driver_link(self.sysfs@, k) by {
                if k < up {
                    assert(out.deep_view()[k] == before[k]);
                }
            }
            up = up + 1;
        }
        out
    }

    /// The kernel module driving this controller: the first name among the targets of its driver
    /// links, given in their order. `hid-generic` is the interesting case: such a controller works,
    /// but usually without its rumble, gyro or LEDs.
    pub fn driver(&self, targets: &Vec<Option<String>>) -> (r: Option<String>)
        ensures
            r.deep_view() == first_name(targets.deep_view()),
    {
        let ghost every = targets.deep_view();
        let mut i: usize = 0;
        assert(every.skip(0) =~= every);
        while i < targets.len()
            invariant
                i <= targets.len(),
                every == targets.deep_view(),
                first_name(every.skip(i as int)) == first_name(every),
            decreases targets.len() - i,
        {
            assert(every.skip(i as int)[0] == targets@[i as int].deep_view());
            assert(every.skip(i as int).skip(1) =~= every.skip(i + 1));
            if let Some(target) = &targets[i] {
                if let Some(name) = name_of_path(target) {
                    return Some(name);
                }
            }
            i = i + 1;
        }
        None
    }

    /// Battery percentage, for a wireless pad that reports one.
    pub fn battery(&self, supplies: &Vec<PowerSupply>) -> (r: Option<u8>)
        ensures
            r == (match first_where(
                supplies.deep_view(),
                |s: PowerSupplyModel| is_battery_of(s, self.sysfs@),
            ) {
                Some(s) => Some((file_number(s.capacity)->0 % 0x100) as u8),
                None => None,
            }),
    {
        let ghost every = supplies.deep_view();
        let ghost p = |s: PowerSupplyModel| is_battery_of(s, self.sysfs@);
        let sysfs = chars_of(&self.sysfs);
        let node = joined_path("/sys", &string_of(trimmed_start_char(&sysfs, '/')));
        let mut i: usize = 0;
        while i < supplies.len()
            invariant
                i <= supplies.len(),
                every == supplies.deep_view(),
                p == (|s: PowerSupplyModel| is_battery_of(s, self.sysfs@)),
                node@ == join("/sys"@, trim_start_char(self.sysfs@, '/')),
                forall|j: int| 0 <= j < i ==> !p(#[trigger] every[j]),
            decreases supplies.len() - i,
        {
            let s = &supplies[i];
            assert(every[i as int] == s.deep_view());
            let device: bool = match &s.scope {
                Some(t) => reads(trimmed(&chars_of(t)), "Device"),
                None => false,
            };
            let capacity: Option<u64> = match &s.capacity {
                Some(t) => read_num(Some(t)),
                None => None,
            };
            if let Some(percent) = capacity {
                if device && shared_hid_device(&node, &s.path) {
                    proof {
                        lemma_first_is(every, p, i as int);
                    }
                    return Some((percent % 0x100) as u8);
                }
            }
            i = i + 1;
        }
        proof {
            lemma_first_none(every, p);
        }
        None
    }

    pub fn kind(&self) -> (r: &'static str)
        ensures
            r@ == (if self.is_gamepad {
                "Gamepad"@
            } else {
                "Stick or wheel"@
            }),
    {
        if self.is_gamepad {
            "Gamepad"
        } else {
            "Stick or wheel"
        }
    }
}

/// A part of a path names a HID device, such as `0003:054C:0CE6.0009`: the bus, the vendor and the
/// product in four hexadecimal digits each, and a hexadecimal instance.
pub open spec fn is_hid(part: Seq<char>) -> bool {
    &&& part.len() > 15
    &&& part[4] == ':' && part[9] == ':' && part[14] == '.'
    &&& forall|i: int|
        0 <= i < part.len() && i != 4 && i != 9 && i != 14 ==> digit_value(#[trigger] part[i]) < 16
}

fn names_hid(part: &[char]) -> (r: bool)
    ensures
        r == is_hid(part@),
{
    if part.len() <= 15 || part[4] != ':' || part[9] != ':' || part[14] != '.' {
        return false;
    }
    let mut i: usize = 0;
    while i < part.len()
        invariant
            i <= part.len(),
            forall|j: int|
                0 <= j < i && j != 4 && j != 9 && j != 14 ==> digit_value(#[trigger] part@[j]) < 16,
        decreases part.len() - i,
    {
        if i != 4 && i != 9 && i != 14 && value_of_digit(part[i]) >= 16 {
            return false;
        }
        i = i + 1;
    }
    true
}

/// The first HID device that a path leads through.
pub open spec fn hid_of(path: Seq<char>) -> Option<Seq<char>> {
    first_where(split(path, '/'), |part: Seq<char>| is_hid(part))
}

fn find_hid<'a>(path: &'a [char]) -> (r: Option<&'a [char]>)
    ensures
        r is Some <==> hid_of(path@) is Some,
        r is Some ==> r->0@ == hid_of(path@)->0,
{
    let parts = pieces(path, '/');
    let ghost every = texts(parts@);
    let ghost p = |part: Seq<char>| is_hid(part);
    let mut i: usize = 0;
    while i < parts.len()
        invariant
            i <= parts.len(),
            every == texts(parts@),
            every == split(path@, '/'),
            p == (|part: Seq<char>| is_hid(part)),
            forall|j: int| 0 <= j < i ==> !p(#[trigger] every[j]),
        decreases parts.len() - i,
    {
        assert(every[i as int] == parts@[i as int]@);
        if names_hid(parts[i]) {
            proof {
                lemma_first_is(every, p, i as int);
            }
            return Some(parts[i]);
        }
        i = i + 1;
    }
    proof {
        lemma_first_none(every, p);
    }
    None
}

/// Two paths lead through the same HID device.
pub open spec fn shares_hid_device(input: Seq<char>, battery: Seq<char>) -> bool {
    hid_of(input) is Some && hid_of(input) == hid_of(battery)
}

/// Whether an input node and a battery hang off the same HID device.
pub fn shared_hid_device(input: &str, battery: &str) -> (r: bool)
    ensures
        r == shares_hid_device(input@, battery@),
{
    let input_chars = chars_of(input);
    let battery_chars = chars_of(battery);
    match find_hid(&input_chars) {
        Some(a) => match find_hid(&battery_chars) {
            Some(b) => same(a, b),
            None => false,
        },
        None => false,
    }
}

// ---------------------------------------------------------------------------
// The system's side
// ---------------------------------------------------------------------------

/// A file of udev rules is one that lets a game open a controller.
pub open spec fn is_input_rule(name: Seq<char>) -> bool {
    contains(name, "steam-input"@) || contains(name, "steam-devices"@)
}

/// Whether the udev rules that let a non-Steam game open a controller are installed, given the
/// names in the rule directories.
///
/// Without them a controller is owned by root and only Steam can use it.
pub fn steam_input_rules(names: &Vec<String>) -> (r: bool)
    ensures
        r == exists|i: int|
            0 <= i < names.deep_view().len() && is_input_rule(#[trigger] names.deep_view()[i]),
{
    let mut i: usize = 0;
    while i < names.len()
        invariant
            i <= names.len(),
            forall|j: int| 0 <= j < i ==> !is_input_rule(#[trigger] names.deep_view()[j]),
        decreases names.len() - i,
    {
        let name = chars_of(&names[i]);
        assert(names.deep_view()[i as int] == name@);
        if holds(&name, "steam-input") || holds(&name, "steam-devices") {
            return true;
        }
        i = i + 1;
    }
    false
}

/// Whether this session may read a controller's event node, which is what a game does: only opening
/// it shows that, so the nodes that could be opened are given.
pub fn can_read(controller: &Controller, opened: &NameSet) -> (r: bool)
    ensures
        r == (controller.deep_view().event is Some && opened@.contains(
            controller.deep_view().event->0,
        )),
{
    match &controller.event {
        Some(path) => opened.contains(path),
        None => false,
    }
}

/// The event node to open, so as to read what a controller does.
pub fn event_node(controller: &Controller) -> (r: Result<String, String>)
    ensures
        match controller.deep_view().event {
            Some(path) => r is Ok && r->Ok_0@ == path,
            None => r is Err && r->Err_0@ == "This controller has no event device to read"@,
        },
{
    match &controller.event {
        Some(path) => Ok(path.clone()),
        None => Err(String::from_str("This controller has no event device to read")),
    }
}

/// What is said where an event node cannot be opened.
pub fn open_failure(path: &str, error: &str) -> (r: String)
    ensures
        r@ == "Cannot open "@ + path@ + ": "@ + error@
            + ". Being in the `input` group, or having the steam-devices rules installed, is what grants this."@,
{
    crate::text::cat5(
        "Cannot open ",
        path,
        ": ",
        error,
        ". Being in the `input` group, or having the steam-devices rules installed, is what grants this.",
    )
}

// ---------------------------------------------------------------------------
// The live tester
// ---------------------------------------------------------------------------

/// One thing a controller just did.
#[derive(Debug, Clone, Copy, PartialEq, Eq, Structural)]
pub enum Input {
    /// A button went down or up. The code is the kernel's `BTN_*`.
    Button { code: u16, pressed: bool },
    /// An axis moved. The value is raw.
    Axis { code: u16, value: i32 },
}

/// The size of `struct input_event` on a 64-bit kernel: two 64-bit times, then type, code and
/// value.
pub const EVENT_SIZE: usize = 24;

pub const EV_KEY: u16 = 0x01;

pub const EV_ABS_TYPE: u16 = 0x03;

/// Two bytes as a number, in one byte order or the other.
pub open spec fn pair_value(a: u8, b: u8, little: bool) -> int {
    if little {
        a + 0x100 * b
    } else {
        0x100 * a + b
    }
}

/// Four bytes as a signed number.
pub open spec fn quad_value(a: u8, b: u8, c: u8, d: u8, little: bool) -> int {
    let low = if little {
        pair_value(a, b, little)
    } else {
        pair_value(c, d, little)
    };
    let high = if little {
        pair_value(c, d, little)
    } else {
        pair_value(a, b, little)
    };
    let all = low + 0x1_0000 * high;
    if all >= 0x8000_0000 {
        all - 0x1_0000_0000
    } else {
        all
    }
}

/// What the event record that starts at a place says, where it is of a kind that says anything.
pub open spec fn event_at(bytes: Seq<u8>, at: int, little: bool) -> Option<Input> {
    let kind = pair_value(bytes[at + 16], bytes[at + 17], little);
    let code = pair_value(bytes[at + 18], bytes[at + 19], little);
    let value = quad_value(
        bytes[at + 20],
        bytes[at + 21],
        bytes[at + 22],
        bytes[at + 23],
        little,
    );
    if kind == 0x01 {
        Some(Input::Button { code: code as u16, pressed: value != 0 })
    } else if kind == 0x03 {
        Some(Input::Axis { code: code as u16, value: value as i32 })
    } else {
        None
    }
}

/// What the whole event records among some bytes say, from the first `n` of them on.
pub open spec fn events_of(bytes: Seq<u8>, n: int, little: bool) -> Seq<Input>
    decreases n,
{
    if n <= 0 {
        Seq::empty()
    } else {
        match event_at(bytes, 24 * (n - 1), little) {
            Some(e) => events_of(bytes, n - 1, little).push(e),
            None => events_of(bytes, n - 1, little),
        }
    }
}

/// What the whole event records among some bytes say; half a record at the end says nothing.
pub open spec fn events_in(bytes: Seq<u8>, little: bool) -> Seq<Input> {
    events_of(bytes, bytes.len() as int / 24, little)
}

fn pair(a: u8, b: u8, little: bool) -> (r: u16)
    ensures
        r == pair_value(a, b, little),
{
    if little {
        a as u16 + 0x100 * (b as u16)
    } else {
        0x100 * (a as u16) + b as u16
    }
}

fn quad(a: u8, b: u8, c: u8, d: u8, little: bool) -> (r: i32)
    ensures
        r == quad_value(a, b, c, d, little),
{
    let low: u16 = if little {
        pair(a, b, little)
    } else {
        pair(c, d, little)
    };
    let high: u16 = if little {
        pair(c, d, little)
    } else {
        pair(a, b, little)
    };
    let all: i64 = low as i64 + 0x1_0000 * (high as i64);
    if all >= 0x8000_0000 {
        (all - 0x1_0000_0000) as i32
    } else {
        all as i32
    }
}

/// The presses and movements among event records written in a byte order.
pub fn parse_events_in(bytes: &[u8], little: bool) -> (r: Vec<Input>)
    ensures
        r@ == events_in(bytes@, little),
{
    let mut out: Vec<Input> = Vec::new();
    let total: usize = bytes.len();
    let count: usize = total / EVENT_SIZE;
    let mut n: usize = 0;
    while n < count
        invariant
            n <= count,
            total == bytes@.len(),
            count == total / 24,
            out@ == events_of(bytes@, n as int, little),
        decreases count - n,
    {
        assert(24 * n + 24 <= total);
        let at: usize = EVENT_SIZE * n;
        let kind: u16 = pair(bytes[at + 16], bytes[at + 17], little);
        let code: u16 = pair(bytes[at + 18], bytes[at + 19], little);
        let value: i32 = quad(
            bytes[at + 20],
            bytes[at + 21],
            bytes[at + 22],
            bytes[at + 23],
            little,
        );
        if kind == EV_KEY {
            out.push(Input::Button { code, pressed: value != 0 });
        } else if kind == EV_ABS_TYPE {
            out.push(Input::Axis { code, value });
        }
        n = n + 1;
    }
    out
}

/// `u16::from_ne_bytes`: the number that two bytes stand for in the machine's byte order, which is
/// one of the two.
#[verifier::external_body]
fn native_pair(a: u8, b: u8) -> (r: u16)
    ensures
        r == pair_value(a, b, true) || r == pair_value(a, b, false),
{
    u16::from_ne_bytes([a, b])
}

/// The presses and movements among event records in the machine's byte order.
pub fn parse_events(bytes: &[u8]) -> (r: Vec<Input>)
    ensures
        r@ == events_in(bytes@, true) || r@ == events_in(bytes@, false),
{
    parse_events_in(bytes, native_pair(1, 0) == 1)
}

/// Takes what was read into a buffer of some size, and says whether there may be more: only where
/// the buffer was filled.
pub fn take_events(events: &mut Vec<Input>, bytes: &[u8], size: usize) -> (r: bool)
    ensures
        final(events)@ == old(events)@ + events_in(bytes@, true) || final(events)@ == old(events)@
            + events_in(bytes@, false),
        r == (bytes@.len() > 0 && bytes@.len() >= size),
{
    let mut more = parse_events(bytes);
    events.append(&mut more);
    bytes.len() > 0 && bytes.len() >= size
}

/// The name of a button code.
pub open spec fn button_text(code: u16) -> Seq<char> {
    if code == 0x130 {
        "A / Cross"@
    } else if code == 0x131 {
        "B / Circle"@
    } else if code == 0x133 {
        "X / Square"@
    } else if code == 0x134 {
        "Y / Triangle"@
    } else if code == 0x136 {
        "Left bumper"@
    } else if code == 0x137 {
        "Right bumper"@
    } else if code == 0x138 {
        "Left trigger"@
    } else if code == 0x139 {
        "Right trigger"@
    } else if code == 0x13a {
        "Select"@
    } else if code == 0x13b {
        "Start"@
    } else if code == 0x13c {
        "Guide"@
    } else if code == 0x13d {
        "Left stick"@
    } else if code == 0x13e {
        "Right stick"@
    } else if code == 0x220 {
        "D-pad up"@
    } else if code == 0x221 {
        "D-pad down"@
    } else if code == 0x222 {
        "D-pad left"@
    } else if code == 0x223 {
        "D-pad right"@
    } else {
        "Button "@ + "0x"@ + written(code as int, 16)
    }
}

/// The name of a button code, for the tester to show.
pub fn button_name(code: u16) -> (r: String)
    ensures
        r@ == button_text(code),
{
    match code {
        0x130 => String::from_str("A / Cross"),
        0x131 => String::from_str("B / Circle"),
        0x133 => String::from_str("X / Square"),
        0x134 => String::from_str("Y / Triangle"),
        0x136 => String::from_str("Left bumper"),
        0x137 => String::from_str("Right bumper"),
        0x138 => String::from_str("Left trigger"),
        0x139 => String::from_str("Right trigger"),
        0x13a => String::from_str("Select"),
        0x13b => String::from_str("Start"),
        0x13c => String::from_str("Guide"),
        0x13d => String::from_str("Left stick"),
        0x13e => String::from_str("Right stick"),
        0x220 => String::from_str("D-pad up"),
        0x221 => String::from_str("D-pad down"),
        0x222 => String::from_str("D-pad left"),
        0x223 => String::from_str("D-pad right"),
        other => cat3("Button ", "0x", &hex_of(other as u64)),
    }
}

/// The name of an axis code.
pub open spec fn axis_text(code: u16) -> Seq<char> {
    if code == 0x00 {
        "Left stick X"@
    } else if code == 0x01 {
        "Left stick Y"@
    } else if code == 0x02 {
        "Left trigger"@
    } else if code == 0x03 {
        "Right stick X"@
    } else if code == 0x04 {
        "Right stick Y"@
    } else if code == 0x05 {
        "Right trigger"@
    } else if code == 0x10 {
        "D-pad X"@
    } else if code == 0x11 {
        "D-pad Y"@
    } else {
        "Axis "@ + "0x"@ + written(code as int, 16)
    }
}

/// The name of an axis code, for the tester to show.
pub fn axis_name(code: u16) -> (r: String)
    ensures
        r@ == axis_text(code),
{
    match code {
        0x00 => String::from_str("Left stick X"),
        0x01 => String::from_str("Left stick Y"),
        0x02 => String::from_str("Left trigger"),
        0x03 => String::from_str("Right stick X"),
        0x04 => String::from_str("Right stick Y"),
        0x05 => String::from_str("Right trigger"),
        0x10 => String::from_str("D-pad X"),
        0x11 => String::from_str("D-pad Y"),
        other => cat3("Axis ", "0x", &hex_of(other as u64)),
    }
}

// ---------------------------------------------------------------------------
// Laws
// ---------------------------------------------------------------------------

/// A device that claims neither face buttons nor trigger buttons, and has no joystick node, is no
/// controller, whatever else it claims.
pub proof fn a_keyboard_is_no_controller(b: BlockModel)
    requires
        !any_bit(b.key_bits, 0x130),
        !any_bit(b.key_bits, 0x120),
        node_of(b.handlers, "js"@) is None,
    ensures
        controller_in(b) is None,
{
}

/// Every controller is a gamepad, has a joystick node, or has axes.
pub proof fn controllers_can_be_played_with(block: Seq<char>)
    requires
        device_of(block) is Some,
    ensures
        device_of(block)->0.is_gamepad || device_of(block)->0.joystick is Some || device_of(
            block,
        )->0.axes > 0,
{
}

/// A battery is never taken from another HID device than the controller's own.
pub proof fn a_battery_is_the_controllers_own(s: PowerSupplyModel, sysfs: Seq<char>)
    requires
        is_battery_of(s, sysfs),
    ensures
        hid_of(join("/sys"@, trim_start_char(sysfs, '/'))) is Some,
        is_hid(hid_of(join("/sys"@, trim_start_char(sysfs, '/')))->0),
        hid_of(s.path) == hid_of(join("/sys"@, trim_start_char(sysfs, '/'))),
{
    lemma_first_index(
        split(join("/sys"@, trim_start_char(sysfs, '/')), '/'),
        |part: Seq<char>| is_hid(part),
    );
}

/// Every controller has a name.
pub proof fn controllers_have_a_name(block: Seq<char>)
    requires
        device_of(block) is Some,
    ensures
        device_of(block)->0.name.len() > 0,
{
}

/// Bytes that do not make up a whole event record say nothing: what is read of some records does
/// not change when half a record follows them.
pub proof fn half_records_are_dropped(bytes: Seq<u8>, more: Seq<u8>, little: bool)
    requires
        bytes.len() % 24 == 0,
        more.len() < 24,
    ensures
        events_in(bytes + more, little) == events_in(bytes, little),
{
    assert((bytes + more).len() as int / 24 == bytes.len() as int / 24);
    lemma_events_prefix(bytes, more, bytes.len() as int / 24, little);
}

proof fn lemma_events_prefix(bytes: Seq<u8>, more: Seq<u8>, n: int, little: bool)
    requires
        24 * n <= bytes.len(),
    ensures
        events_of(bytes + more, n, little) == events_of(bytes, n, little),
    decreases n,
{
    if n > 0 {
        lemma_events_prefix(bytes, more, n - 1, little);
        let at = 24 * (n - 1);
        assert forall|k: int| 0 <= k < 24 implies (bytes + more)[at + k] == #[trigger] bytes[at
            + k] by {}
        assert(event_at(bytes + more, at, little) == event_at(bytes, at, little));
    }
}

/// Reading in two goes, at the end of a record, gives what reading in one go does.
pub proof fn events_read_in_parts(a: Seq<u8>, b: Seq<u8>, little: bool)
    requires
        a.len() % 24 == 0,
    ensures
        events_in(a + b, little) == events_in(a, little) + events_in(b, little),
{
    let n = a.len() as int / 24;
    let m = b.len() as int / 24;
    assert((a + b).len() as int / 24 == n + m);
    lemma_events_concat(a, b, n, m, little);
}

proof fn lemma_events_concat(a: Seq<u8>, b: Seq<u8>, n: int, m: int, little: bool)
    requires
        a.len() == 24 * n,
        0 <= m,
        24 * m <= b.len(),
    ensures
        events_of(a + b, n + m, little) == events_of(a, n, little) + events_of(b, m, little),
    decreases m,
{
    if m == 0 {
        lemma_events_prefix(a, b, n, little);
        assert(events_of(a, n, little) =~= events_of(a, n, little) + events_of(b, 0, little));
    } else {
        lemma_events_concat(a, b, n, m - 1, little);
        let at = 24 * (m - 1);
        assert forall|k: int| 0 <= k < 24 implies (a + b)[24 * (n + m - 1) + k] == #[trigger] b[at
            + k] by {}
        assert(event_at(a + b, 24 * (n + m - 1), little) == event_at(b, at, little)) by {
            assert((a + b)[24 * (n + m - 1) + 16] == b[at + 16]);
            assert((a + b)[24 * (n + m - 1) + 17] == b[at + 17]);
            assert((a + b)[24 * (n + m - 1) + 18] == b[at + 18]);
            assert((a + b)[24 * (n + m - 1) + 19] == b[at + 19]);
            assert((a + b)[24 * (n + m - 1) + 20] == b[at + 20]);
            assert((a + b)[24 * (n + m - 1) + 21] == b[at + 21]);
            assert((a + b)[24 * (n + m - 1) + 22] == b[at + 22]);
            assert((a + b)[24 * (n + m - 1) + 23] == b[at + 23]);
        }
        let left = events_of(a, n, little);
        let right = events_of(b, m - 1, little);
        match event_at(b, at, little) {
            Some(e) => {
                assert((left + right).push(e) =~= left + right.push(e));
            },
            None => {},
        }
    }
}

proof fn lemma_block_bits(lines: Seq<Seq<char>>, n: int)
    requires
        n >= 0,
        forall|i: int| 0 <= i < lines.len() ==> (#[trigger] lines[i]).len() <= n,
    ensures
        block_of(lines).key_bits.len() <= n,
        block_of(lines).abs_bits.len() <= n,
    decreases lines.len(),
{
    if lines.len() > 0 {
        let before = lines.drop_last();
        assert forall|i: int| 0 <= i < before.len() implies (#[trigger] before[i]).len() <= n by {
            assert(before[i] == lines[i]);
        }
        lemma_block_bits(before, n);
        let raw = lines.last();
        assert(lines[lines.len() - 1] == raw);
        crate::text::lemma_trim_end_len(raw);
        let line = trim_end(raw);
        if let Some(rest) = strip_prefix(line, "I: "@) {
            lemma_ids_keep_bits(block_of(before), words(rest));
        }
        if let Some(rest) = strip_prefix(line, "B: "@) {
            if let Some(value) = strip_prefix(rest, "KEY="@) {
                crate::text::lemma_words_len(value);
            }
            if let Some(value) = strip_prefix(rest, "ABS="@) {
                crate::text::lemma_words_len(value);
            }
        }
    }
}

proof fn lemma_ids_keep_bits(b: BlockModel, fields: Seq<Seq<char>>)
    ensures
        with_ids(b, fields).key_bits == b.key_bits,
        with_ids(b, fields).abs_bits == b.abs_bits,
    decreases fields.len(),
{
    if fields.len() > 0 {
        lemma_ids_keep_bits(b, fields.drop_last());
    }
}

/// In a block of at most sixty-seven million characters every count fits in 32 bits.
pub proof fn short_blocks_can_be_counted(block: Seq<char>)
    requires
        block.len() <= 0x3ff_ffff,
    ensures
        counts_fit(block),
{
    assert forall|i: int| 0 <= i < lines(block).len() implies (#[trigger] lines(block)[i]).len()
        <= block.len() by {
        crate::text::lemma_lines_len(block, i);
    }
    lemma_block_bits(lines(block), block.len() as int);
    let b = block_of(lines(block));
    lemma_ones_in(b.key_bits, 0);
    lemma_ones_in(b.abs_bits, 0);
}

/// In a device list of at most sixty-seven million characters every count fits in 32 bits.
pub proof fn short_lists_can_be_counted(text: Seq<char>)
    requires
        text.len() <= 0x3ff_ffff,
    ensures
        all_counts_fit(text),
{
    assert forall|i: int| 0 <= i < split_text(text, "\n\n"@).len() implies counts_fit(
        #[trigger] split_text(text, "\n\n"@)[i],
    ) by {
        crate::text::lemma_split_text_len(text, "\n\n"@, i);
        short_blocks_can_be_counted(split_text(text, "\n\n"@)[i]);
    }
}

/// The bus that a controller is on is told by the kernel's number for it.
pub proof fn buses_are_told_by_their_numbers(bus: u16)
    ensures
        transport_of(bus) == Transport::Usb <==> bus == 3,
        transport_of(bus) == Transport::Bluetooth <==> bus == 5,
        transport_of(bus) == Transport::Virtual <==> bus == 6,
{
}

/// A number in two bytes of a byte order.
pub open spec fn two_bytes(n: int, little: bool) -> Seq<u8> {
    if little {
        seq![(n % 0x100) as u8, (n / 0x100) as u8]
    } else {
        seq![(n / 0x100) as u8, (n % 0x100) as u8]
    }
}

/// A signed number in four bytes of a byte order, a negative one counted down from the top.
pub open spec fn four_bytes(value: int, little: bool) -> Seq<u8> {
    let n = if value < 0 {
        value + 0x1_0000_0000
    } else {
        value
    };
    if little {
        two_bytes(n % 0x1_0000, little) + two_bytes(n / 0x1_0000, little)
    } else {
        two_bytes(n / 0x1_0000, little) + two_bytes(n % 0x1_0000, little)
    }
}

/// The record of an event as the kernel writes it: when, of what kind, which code, and its value.
pub open spec fn event_record(time: Seq<u8>, kind: u16, code: u16, value: i32, little: bool) -> Seq<u8> {
    time + two_bytes(kind as int, little) + two_bytes(code as int, little) + four_bytes(
        value as int,
        little,
    )
}

/// Events are read back as the kernel wrote them, in either byte order: a record of a key is a button that
/// went down, unless its value is zero, and one of an axis is where the axis moved to. A record of any
/// other kind says nothing.
pub proof fn events_are_read_back(time: Seq<u8>, kind: u16, code: u16, value: i32, little: bool)
    requires
        time.len() == 16,
    ensures
        events_in(event_record(time, 1, code, value, little), little) == seq![
            Input::Button { code, pressed: value != 0 },
        ],
        events_in(event_record(time, 3, code, value, little), little) == seq![
            Input::Axis { code, value },
        ],
        kind != 1 && kind != 3 ==> events_in(event_record(time, kind, code, value, little), little)
            == Seq::<Input>::empty(),
{
    lemma_record(time, 1, code, value, little);
    lemma_record(time, 3, code, value, little);
    lemma_record(time, kind, code, value, little);
}

proof fn lemma_record(time: Seq<u8>, kind: u16, code: u16, value: i32, little: bool)
    requires
        time.len() == 16,
    ensures
        events_in(event_record(time, kind, code, value, little), little) == (if kind == 1 {
            seq![Input::Button { code, pressed: value != 0 }]
        } else if kind == 3 {
            seq![Input::Axis { code, value }]
        } else {
            Seq::<Input>::empty()
        }),
{
    let bytes = event_record(time, kind, code, value, little);
    let n: int = if value < 0 {
        value + 0x1_0000_0000
    } else {
        value as int
    };
    let low = n % 0x1_0000;
    let high = n / 0x1_0000;
    assert(0 <= n < 0x1_0000_0000);
    assert(0 <= low < 0x1_0000 && 0 <= high < 0x1_0000 && n == low + 0x1_0000 * high);
    assert(bytes.len() == 24);
    lemma_two_bytes(kind as int, little);
    lemma_two_bytes(code as int, little);
    lemma_two_bytes(low, little);
    lemma_two_bytes(high, little);
    assert(bytes[16] == two_bytes(kind as int, little)[0] && bytes[17] == two_bytes(kind as int, little)[1]);
    assert(bytes[18] == two_bytes(code as int, little)[0] && bytes[19] == two_bytes(code as int, little)[1]);
    let q = four_bytes(value as int, little);
    assert(bytes[20] == q[0] && bytes[21] == q[1] && bytes[22] == q[2] && bytes[23] == q[3]);
    if little {
        assert(q[0] == two_bytes(low, little)[0] && q[1] == two_bytes(low, little)[1]);
        assert(q[2] == two_bytes(high, little)[0] && q[3] == two_bytes(high, little)[1]);
    } else {
        assert(q[0] == two_bytes(high, little)[0] && q[1] == two_bytes(high, little)[1]);
        assert(q[2] == two_bytes(low, little)[0] && q[3] == two_bytes(low, little)[1]);
    }
    assert(quad_value(bytes[20], bytes[21], bytes[22], bytes[23], little) == value);
    reveal_with_fuel(events_of, 2);
    assert(bytes.len() as int / 24 == 1);
    assert(events_of(bytes, 1, little) =~= match event_at(bytes, 0, little) {
        Some(e) => seq![e],
        None => Seq::<Input>::empty(),
    });
}

proof fn lemma_two_bytes(n: int, little: bool)
    requires
        0 <= n < 0x1_0000,
    ensures
        pair_value(two_bytes(n, little)[0], two_bytes(n, little)[1], little) == n,
        two_bytes(n, little).len() == 2,
{
}

/// A controller is told by its buttons: it is a gamepad exactly where it claims one of the sixteen codes
/// of face buttons, and any other device is one only by trigger buttons and axes, or by a joystick node.
/// A device without a name is none.
pub proof fn controllers_are_told_by_their_buttons(b: BlockModel)
    ensures
        controller_in(b) is Some <==> b.name.len() > 0 && ((exists|bit: int|
            0x130 <= bit <= 0x13f && #[trigger] has_bit(b.key_bits, bit)) || ((exists|bit: int|
            0x120 <= bit <= 0x12f && #[trigger] has_bit(b.key_bits, bit)) && (b.ev as int / 8) % 2 == 1
            && ones_in(b.abs_bits) > 0) || node_of(b.handlers, "js"@) is Some),
        controller_in(b) is Some ==> (controller_in(b)->0.is_gamepad <==> exists|bit: int|
            0x130 <= bit <= 0x13f && #[trigger] has_bit(b.key_bits, bit)),
{
}

/// What is known of a controller is what its block says: its name and ids, its bus, its nodes and its
/// path, and how many axes and buttons it claims; that it rumbles is told by the bit of force feedback.
pub proof fn a_controller_is_what_its_block_says(b: BlockModel)
    requires
        controller_in(b) is Some,
    ensures
        ({
            let c = controller_in(b)->0;
            &&& c.name == b.name
            &&& c.vendor == b.vendor
            &&& c.product == b.product
            &&& c.transport == transport_of(b.bus)
            &&& c.sysfs == b.sysfs
            &&& c.axes == ones_in(b.abs_bits)
            &&& c.buttons == ones_in(b.key_bits)
            &&& c.has_rumble <==> (b.ev as int / 0x20_0000) % 2 == 1
            &&& c.event == node_of(b.handlers, "event"@)
            &&& c.joystick == node_of(b.handlers, "js"@)
        }),
{
}

/// A bit of a bitmap is counted through its words from the lowest: sixty-four to a word.
pub proof fn bits_are_counted_through_the_words(bits: Seq<u64>, bit: int)
    requires
        0 <= bit < 64 * bits.len(),
    ensures
        has_bit(bits, bit) == has_bit(seq![bits[bit / 64]], bit % 64),
        has_bit(bits, 64 * bits.len() as int) == false,
{
    assert(0 <= bit / 64 < bits.len());
    assert((bit % 64) / 64 == 0);
    assert((bit % 64) % 64 == bit % 64);
    assert((64 * bits.len() as int) / 64 == bits.len());
}

/// The ones of a number are those of its half, and one more where it is odd.
pub proof fn ones_are_counted_digit_by_digit(n: int)
    requires
        n >= 0,
    ensures
        ones(2 * n) == ones(n),
        ones(2 * n + 1) == ones(n) + 1,
        ones(0) == 0,
{
    assert((2 * n) / 2 == n && (2 * n) % 2 == 0);
    assert((2 * n + 1) / 2 == n && (2 * n + 1) % 2 == 1);
}

/// A bitmap is printed with its highest word first: a word printed before others stands above them.
pub proof fn bitmaps_are_printed_high_word_first(word: Seq<char>, rest: Seq<char>, n: u64)
    requires
        rest.len() > 0 ==> crate::text::is_space(rest[0]),
        word == written(n as int, 16),
    ensures
        bitmap_of(word + rest) == bitmap_of(rest).push(n),
        bitmap_of(Seq::<char>::empty()) == Seq::<u64>::empty(),
{
    let none = Seq::<char>::empty();
    crate::number::lemma_written(n as int, 16);
    assert forall|i: int| 0 <= i < word.len() implies !crate::text::is_space(#[trigger] word[i]) by {
        assert(digit_value(word[i]) < 16);
    }
    crate::text::words_come_apart(none, word, rest);
    assert(none + word + rest =~= word + rest);
    crate::number::written_reads_back(n as int, 16, u64::MAX as int);
    let f = |w: Seq<char>| hex_word(w);
    assert((seq![word] + words(rest)).reverse() =~= words(rest).reverse().push(word));
    assert(bitmap_of(word + rest) =~= bitmap_of(rest).push(n));
    assert(words(none).reverse() =~= words(none));
    assert(bitmap_of(none) =~= Seq::<u64>::empty());
}

proof fn lemma_stripped(head: Seq<char>, rest: Seq<char>)
    ensures
        strip_prefix(head + rest, head) == Some(rest),
{
    let s = head + rest;
    assert(s.subrange(0, head.len() as int) =~= head);
    assert(s.skip(head.len() as int) =~= rest);
}

proof fn lemma_line_kinds(head: Seq<char>, rest: Seq<char>, other: Seq<char>)
    requires
        head.len() == 3,
        other.len() == 3,
        head[0] != other[0],
    ensures
        strip_prefix(head + rest, other) is None,
{
    let s = head + rest;
    if other.is_prefix_of(s) {
        assert(s.subrange(0, 3)[0] == other[0]);
        assert(s[0] == head[0]);
    }
}

proof fn lemma_kinds_differ(rest: Seq<char>)
    ensures
        strip_prefix("N: "@ + rest, "I: "@) is None,
        strip_prefix("S: "@ + rest, "I: "@) is None,
        strip_prefix("S: "@ + rest, "N: "@) is None,
        strip_prefix("H: "@ + rest, "I: "@) is None,
        strip_prefix("H: "@ + rest, "N: "@) is None,
        strip_prefix("H: "@ + rest, "S: "@) is None,
        strip_prefix("B: "@ + rest, "I: "@) is None,
        strip_prefix("B: "@ + rest, "N: "@) is None,
        strip_prefix("B: "@ + rest, "S: "@) is None,
        strip_prefix("B: "@ + rest, "H: "@) is None,
{
    reveal_strlit("I: ");
    reveal_strlit("N: ");
    reveal_strlit("S: ");
    reveal_strlit("H: ");
    reveal_strlit("B: ");
    lemma_line_kinds("N: "@, rest, "I: "@);
    lemma_line_kinds("S: "@, rest, "I: "@);
    lemma_line_kinds("S: "@, rest, "N: "@);
    lemma_line_kinds("H: "@, rest, "I: "@);
    lemma_line_kinds("H: "@, rest, "N: "@);
    lemma_line_kinds("H: "@, rest, "S: "@);
    lemma_line_kinds("B: "@, rest, "I: "@);
    lemma_line_kinds("B: "@, rest, "N: "@);
    lemma_line_kinds("B: "@, rest, "S: "@);
    lemma_line_kinds("B: "@, rest, "H: "@);
}

proof fn lemma_end_kept(head: Seq<char>, rest: Seq<char>)
    requires
        head.len() > 0 && !crate::text::is_space(head.last()) || rest.len() > 0,
        rest.len() > 0 ==> !crate::text::is_space(rest.last()),
    ensures
        trim_end(head + rest) == head + rest,
{
    let s = head + rest;
    assert(rest.len() > 0 ==> s.last() == rest.last());
    assert(rest.len() == 0 ==> s =~= head);
}

/// A block's lines say what their letters and names stand for: `I:` the ids, `N:` the name in quotation
/// marks, `S:` the path, `H:` the handlers, and `B:` the bitmaps.
pub proof fn lines_say_what_their_letters_stand_for(b: BlockModel, rest: Seq<char>)
    requires
        rest.len() > 0,
        !crate::text::is_space(rest.last()),
    ensures
        with_line(b, "I: "@ + rest) == with_ids(b, words(rest)),
        with_line(b, "N: "@ + rest) == (BlockModel {
            name: trim_char(trim_start_text(rest, "Name="@), '"'),
            ..b
        }),
        with_line(b, "S: "@ + rest) == (BlockModel { sysfs: trim_start_text(rest, "Sysfs="@), ..b }),
        with_line(b, "H: "@ + rest) == (BlockModel {
            handlers: words(trim_start_text(rest, "Handlers="@)),
            ..b
        }),
        with_line(b, "B: "@ + rest) == with_bits(b, rest),
{
    lemma_kinds_differ(rest);
    lemma_stripped("I: "@, rest);
    lemma_stripped("N: "@, rest);
    lemma_stripped("S: "@, rest);
    lemma_stripped("H: "@, rest);
    lemma_stripped("B: "@, rest);
    lemma_end_kept("I: "@, rest);
    lemma_end_kept("N: "@, rest);
    lemma_end_kept("S: "@, rest);
    lemma_end_kept("H: "@, rest);
    lemma_end_kept("B: "@, rest);
}

/// The ids of a device are hexadecimal, each behind its own name; a field of another name changes none.
pub proof fn ids_are_read_by_their_names(b: BlockModel, n: u16)
    ensures
        with_id(b, "Bus="@ + written(n as int, 16)) == (BlockModel { bus: n, ..b }),
        with_id(b, "Vendor="@ + written(n as int, 16)) == (BlockModel { vendor: n, ..b }),
        with_id(b, "Product="@ + written(n as int, 16)) == (BlockModel { product: n, ..b }),
        with_id(b, "Version="@ + written(n as int, 16)) == b,
{
    reveal_strlit("Bus=");
    reveal_strlit("Vendor=");
    reveal_strlit("Product=");
    reveal_strlit("Version=");
    reveal_strlit("Bus");
    reveal_strlit("Vendor");
    reveal_strlit("Product");
    reveal_strlit("Version");
    crate::number::written_reads_back(n as int, 16, u16::MAX as int);
    let w = written(n as int, 16);
    assert("Bus="@ =~= "Bus"@.push('='));
    assert("Vendor="@ =~= "Vendor"@.push('='));
    assert("Product="@ =~= "Product"@.push('='));
    assert("Version="@ =~= "Version"@.push('='));
    lemma_cut_at("Bus"@, w);
    lemma_cut_at("Vendor"@, w);
    lemma_cut_at("Product"@, w);
    lemma_cut_at("Version"@, w);
    assert("Bus"@.len() == 3 && "Vendor"@.len() == 6 && "Product"@[0] == 'P' && "Version"@[0] == 'V'
        && "Version"@.len() == 7);
}

proof fn lemma_cut_at(key: Seq<char>, value: Seq<char>)
    requires
        forall|i: int| 0 <= i < key.len() ==> key[i] != '=',
    ensures
        split_once(key.push('=') + value, '=') == Some((key, value)),
{
    let s = key.push('=') + value;
    crate::text::lemma_find_char(s, '=');
    let i = crate::text::find_char(s, '=');
    assert(s[key.len() as int] == '=');
    if i < key.len() {
        assert(key[i] == s[i]);
    }
    assert(s.take(i) =~= key);
    assert(s.skip(i + 1) =~= value);
}

/// The bitmaps of a device are told apart by their names: what it can do at all, its keys, and its axes.
pub proof fn bitmaps_are_told_by_their_names(b: BlockModel, value: Seq<char>)
    ensures
        with_bits(b, "EV="@ + value) == (BlockModel { ev: hex_u32_or_zero(trim(value)), ..b }),
        with_bits(b, "KEY="@ + value) == (BlockModel { key_bits: bitmap_of(value), ..b }),
        with_bits(b, "ABS="@ + value) == (BlockModel { abs_bits: bitmap_of(value), ..b }),
{
    reveal_strlit("EV=");
    reveal_strlit("KEY=");
    reveal_strlit("ABS=");
    lemma_stripped("EV="@, value);
    lemma_stripped("KEY="@, value);
    lemma_stripped("ABS="@, value);
    let k = "KEY="@ + value;
    let a = "ABS="@ + value;
    assert(k[0] == 'K' && a[0] == 'A');
    if "EV="@.is_prefix_of(k) {
        assert(k.subrange(0, 3)[0] == 'E');
    }
    if "EV="@.is_prefix_of(a) {
        assert(a.subrange(0, 3)[0] == 'E');
    }
    if "KEY="@.is_prefix_of(a) {
        assert(a.subrange(0, 4)[0] == 'K');
    }
}

/// A device's node is the first of its handlers with the name of its kind and a number.
pub proof fn a_node_is_the_first_of_its_kind(handlers: Seq<Seq<char>>, i: int, digits: Seq<char>)
    requires
        0 <= i < handlers.len(),
        digits.len() > 0,
        crate::text::all_digits(digits),
    ensures
        handlers[i] == "event"@ + digits && (forall|j: int|
            0 <= j < i ==> !is_numbered(#[trigger] handlers[j], "event"@)) ==> node_of(handlers, "event"@)
            == Some("/dev/input/"@ + ("event"@ + digits)),
        handlers[i] == "js"@ + digits && (forall|j: int|
            0 <= j < i ==> !is_numbered(#[trigger] handlers[j], "js"@)) ==> node_of(handlers, "js"@)
            == Some("/dev/input/"@ + ("js"@ + digits)),
        (forall|j: int| 0 <= j < handlers.len() ==> !"js"@.is_prefix_of(#[trigger] handlers[j]))
            ==> node_of(handlers, "js"@) is None,
{
    let e = "event"@ + digits;
    let s = "js"@ + digits;
    let p = |h: Seq<char>| is_numbered(h, "event"@);
    let q = |h: Seq<char>| is_numbered(h, "js"@);
    assert(e.subrange(0, "event"@.len() as int) =~= "event"@);
    assert(e.skip("event"@.len() as int) =~= digits);
    assert(s.subrange(0, "js"@.len() as int) =~= "js"@);
    assert(s.skip("js"@.len() as int) =~= digits);
    if handlers[i] == e && (forall|j: int|
        0 <= j < i ==> !is_numbered(#[trigger] handlers[j], "event"@)) {
        lemma_first_is(handlers, p, i);
    }
    if handlers[i] == s && (forall|j: int| 0 <= j < i ==> !is_numbered(#[trigger] handlers[j], "js"@)) {
        lemma_first_is(handlers, q, i);
    }
    if forall|j: int| 0 <= j < handlers.len() ==> !"js"@.is_prefix_of(#[trigger] handlers[j]) {
        lemma_first_none(handlers, q);
    }
}

/// A power supply is a controller's battery exactly where it is in a device that is plugged in, says how
/// full it is, and hangs off the same HID device.
pub proof fn a_battery_is_told_by_its_scope_and_place(
    s: PowerSupplyModel,
    sysfs: Seq<char>,
    scope: Seq<char>,
    n: u64,
)
    requires
        s.scope == Some(scope),
        file_number(s.capacity) == Some(n),
    ensures
        is_battery_of(s, sysfs) <==> trim(scope) == "Device"@ && hid_of(
            join("/sys"@, trim_start_char(sysfs, '/')),
        ) is Some && hid_of(join("/sys"@, trim_start_char(sysfs, '/'))) == hid_of(s.path),
{
}

/// The buttons of a pad are called by what is printed on them, by either maker.
pub proof fn buttons_have_their_names(code: u16)
    ensures
        button_text(0x130) == "A / Cross"@,
        button_text(0x131) == "B / Circle"@,
        button_text(0x133) == "X / Square"@,
        button_text(0x134) == "Y / Triangle"@,
        button_text(0x136) == "Left bumper"@,
        button_text(0x137) == "Right bumper"@,
        button_text(0x138) == "Left trigger"@,
        button_text(0x139) == "Right trigger"@,
        button_text(0x13a) == "Select"@,
        button_text(0x13b) == "Start"@,
        button_text(0x13c) == "Guide"@,
        button_text(0x13d) == "Left stick"@,
        button_text(0x13e) == "Right stick"@,
        button_text(0x220) == "D-pad up"@,
        button_text(0x221) == "D-pad down"@,
        button_text(0x222) == "D-pad left"@,
        button_text(0x223) == "D-pad right"@,
        code < 0x130 ==> button_text(code) == "Button "@ + "0x"@ + written(code as int, 16),
{
}

/// The axes of a pad are called by what moves them.
pub proof fn axes_have_their_names(code: u16)
    ensures
        axis_text(0) == "Left stick X"@,
        axis_text(1) == "Left stick Y"@,
        axis_text(2) == "Left trigger"@,
        axis_text(3) == "Right stick X"@,
        axis_text(4) == "Right stick Y"@,
        axis_text(5) == "Right trigger"@,
        axis_text(0x10) == "D-pad X"@,
        axis_text(0x11) == "D-pad Y"@,
        code > 0x11 ==> axis_text(code) == "Axis "@ + "0x"@ + written(code as int, 16),
{
}

/// The rules that let a game open a controller are told by the names that Steam's packages give them.
pub proof fn input_rules_are_steams(before: Seq<char>, after: Seq<char>)
    ensures
        is_input_rule(before + "steam-input"@ + after),
        is_input_rule(before + "steam-devices"@ + after),
{
    let a = before + "steam-input"@ + after;
    let b = before + "steam-devices"@ + after;
    let n = before.len() as int;
    assert(a.subrange(n, n + "steam-input"@.len()) =~= "steam-input"@);
    assert(b.subrange(n, n + "steam-devices"@.len()) =~= "steam-devices"@);
}

/// The controllers of the device list are those of its blocks, and no other is.
pub proof fn every_block_is_looked_at(text: Seq<char>, c: ControllerModel)
    ensures
        devices_of(text).contains(c) <==> exists|i: int|
            0 <= i < split_text(text, "\n\n"@).len() && device_of(
                #[trigger] split_text(text, "\n\n"@)[i],
            ) == Some(c),
{
    let f = |block: Seq<char>| device_of(block);
    let blocks = split_text(text, "\n\n"@);
    crate::lists::lemma_picked(blocks, f, c);
    if devices_of(text).contains(c) {
        let i = choose|i: int| 0 <= i < blocks.len() && f(#[trigger] blocks[i]) == Some(c);
        assert(device_of(blocks[i]) == Some(c));
    }
    if exists|i: int| 0 <= i < blocks.len() && device_of(#[trigger] blocks[i]) == Some(c) {
        let i = choose|i: int| 0 <= i < blocks.len() && device_of(#[trigger] blocks[i]) == Some(c);
        assert(f(blocks[i]) == Some(c));
    }
}

/// The bits of a word are counted from its ones: the first tells odd from even, and each further one is
/// the one before it of half the word.
pub proof fn bits_are_counted_from_the_ones(word: u64, bit: int)
    requires
        0 <= bit < 63,
    ensures
        has_bit(seq![word], 0) <==> word % 2 == 1,
        has_bit(seq![word], bit + 1) <==> has_bit(seq![word / 2], bit),
{
    vstd::arithmetic::power2::lemma2_to64();
    assert(pow2(0) == 1);
    assert(0int / 64 == 0 && 0int % 64 == 0);
    assert(word as int / 1 == word as int);
    assert((bit + 1) / 64 == 0 && (bit + 1) % 64 == bit + 1);
    assert(bit / 64 == 0 && bit % 64 == bit);
    vstd::arithmetic::power2::lemma_pow2_unfold((bit + 1) as nat);
    vstd::arithmetic::power2::lemma_pow2_pos(bit as nat);
    vstd::arithmetic::div_mod::lemma_div_denominator(word as int, 2, pow2(bit as nat) as int);
    assert(seq![word][0] == word && seq![word / 2][0] == word / 2);
}

/// The driver of a controller is looked for at its own directory below `/sys` first, and then at each
/// directory above it, six at most.
pub proof fn a_driver_is_looked_for_upwards(parts: Seq<Seq<char>>, sysfs: Seq<char>, up: int)
    requires
        crate::path::path_parts(crate::text::trim_start_char(sysfs, '/')) == parts,
        0 <= up <= parts.len(),
    ensures
        driver_link(sysfs, up) == "/"@ + crate::text::join(
            seq!["sys"@] + parts.take(parts.len() - up) + seq!["driver"@],
            "/"@,
        ),
        driver_levels(sysfs) <= 6,
        parts.len() >= 4 ==> driver_levels(sysfs) == 6,
        parts.len() < 4 ==> driver_levels(sysfs) == parts.len() + 2,
{
    let all = node_parts(sysfs);
    assert(all.take(all.len() - up).push("driver"@) =~= seq!["sys"@] + parts.take(parts.len() - up)
        + seq!["driver"@]);
}

/// A HID device is named by its bus, vendor and product, four hexadecimal digits each, and a number of its
/// own behind a point.
pub proof fn hid_devices_are_named_by_their_ids(
    bus: Seq<char>,
    vendor: Seq<char>,
    product: Seq<char>,
    number: Seq<char>,
)
    requires
        bus.len() == 4 && vendor.len() == 4 && product.len() == 4 && number.len() > 0,
    ensures
        is_hid(bus + seq![':'] + vendor + seq![':'] + product + seq!['.'] + number) <==> (forall|i: int|
            0 <= i < 4 ==> digit_value(#[trigger] bus[i]) < 16) && (forall|i: int|
            0 <= i < 4 ==> digit_value(#[trigger] vendor[i]) < 16) && (forall|i: int|
            0 <= i < 4 ==> digit_value(#[trigger] product[i]) < 16) && (forall|i: int|
            0 <= i < number.len() ==> digit_value(#[trigger] number[i]) < 16),
{
    let part = bus + seq![':'] + vendor + seq![':'] + product + seq!['.'] + number;
    assert(forall|i: int| 0 <= i < 4 ==> #[trigger] bus[i] == part[i]);
    assert(forall|i: int| 0 <= i < 4 ==> #[trigger] vendor[i] == part[i + 5]);
    assert(forall|i: int| 0 <= i < 4 ==> #[trigger] product[i] == part[i + 10]);
    assert(forall|i: int| 0 <= i < number.len() ==> #[trigger] number[i] == part[i + 15]);
    assert(part[4] == ':' && part[9] == ':' && part[14] == '.');
    if (forall|i: int| 0 <= i < 4 ==> digit_value(#[trigger] bus[i]) < 16) && (forall|i: int|
        0 <= i < 4 ==> digit_value(#[trigger] vendor[i]) < 16) && (forall|i: int|
        0 <= i < 4 ==> digit_value(#[trigger] product[i]) < 16) && (forall|i: int|
        0 <= i < number.len() ==> digit_value(#[trigger] number[i]) < 16) {
        assert forall|i: int|
            0 <= i < part.len() && i != 4 && i != 9 && i != 14 implies digit_value(#[trigger] part[i])
            < 16 by {
            if i < 4 {
                assert(part[i] == bus[i]);
            } else if i < 9 {
                assert(part[i] == vendor[i - 5]);
            } else if i < 14 {
                assert(part[i] == product[i - 10]);
            } else {
                assert(part[i] == number[i - 15]);
            }
        }
    }
}

} // verus!
