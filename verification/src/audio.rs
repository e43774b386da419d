//! Game audio: the devices, and the one setting that decides whether the sound arrives when the
//! picture does.
//!
//! A desktop wants a big audio buffer, which never underruns; a game wants a small one, because
//! twenty milliseconds is the gap between the gun firing and the bang. A buffer too small for the
//! machine crackles, which is why a change is applied live first, so that it can be heard and
//! undone, and only written to disk on top of that.
use vstd::prelude::*;
use crate::binary::{
    lemma_significand_bound, lemma_whole_near, lift, nearest, nearest_of, quotient_of, significand,
    tenths_text, whole, whole_of, fixed,
};
use crate::capture::{home_dir, home_or_here};
use crate::collections::{NameSet, TextMap};
use crate::json::{
    json_read, list_in, member, model_of, models, number_in, read_json, text_in, Json, JsonModel,
};
use crate::lists::{lemma_filter_map_step, lemma_first_is, lemma_first_none, first_where};
use crate::number::{decimal, decimal_of, read_u32, u32_of};
use crate::order::{
    by_rank, in_order, no_later, ranks, sort, sorting_orders, text_le, text_le_total,
    text_le_transitive, Ranked,
};
use crate::path::joined_path;
use crate::text::{
    after_prefix, cat2, cat3, chars_of, contains, cut, ends_with, equal, find, found, holds, lines,
    lines_of, part, split_once, string_of, strip_prefix, texts, trim, trim_char, trimmed,
    trimmed_char,
};
use crate::tune::{final_line, last_line};

verus! {

/// The buffer sizes offered, in frames.
///
/// Powers of two from PipeWire's own minimum to its default. 1024 is what a desktop ships with; 256
/// is the usual sweet spot for a game on hardware from the last decade.
pub const QUANTA: [u32; 5] = [1024, 512, 256, 128, 64];

/// The sample rates offered. 48 kHz is what games and PipeWire both assume; 44.1 is what older
/// games and CD audio use.
pub const RATES: [u32; 4] = [48_000, 44_100, 96_000, 192_000];

#[derive(Debug, Clone, Copy, PartialEq, Eq)]
pub struct Latency {
    pub quantum: u32,
    pub rate: u32,
}

/// A number of milliseconds that a buffer takes, as binary64 arithmetic gives it: the numerator and
/// the power of two that it is over. The quotient of frames and rate is rounded, and so is its
/// product with a thousand.
pub open spec fn milliseconds_of(quantum: int, rate: int) -> (int, int) {
    (whole(1000 * significand(quantum, rate)), lift(quantum, rate))
}

/// A latency is known: both of its numbers were given.
pub open spec fn is_known(l: Latency) -> bool {
    l.rate > 0 && l.quantum > 0
}

impl Latency {
    /// The buffer's length in milliseconds, which is the number that actually means something to a
    /// person, as a fraction.
    pub fn milliseconds(self) -> (r: Option<(u128, u128)>)
        ensures
            r is Some == is_known(self),
            r is Some ==> ((r->0).0 as int, (r->0).1 as int) == milliseconds_of(
                self.quantum as int,
                self.rate as int,
            ),
            r is Some ==> 1 <= (r->0).1 <= 0x10_0000_0000_0000_0000_0000_0000 && (r->0).0
                <= 0x1_0000_0000_0000_0000,
    {
        if self.rate > 0 && self.quantum > 0 {
            let (m, unit) = quotient_of(self.quantum, self.rate);
            Some((whole_of(1000 * m), unit))
        } else {
            None
        }
    }

    /// The buffer in frames and in milliseconds, to a tenth.
    pub fn text(self) -> (r: String)
        ensures
            r@ == (if is_known(self) {
                let ms = milliseconds_of(self.quantum as int, self.rate as int);
                decimal(self.quantum as int) + " frames · "@ + fixed(
                    nearest(10 * ms.0, ms.1),
                    10,
                    1,
                ) + " ms"@
            } else {
                "—"@
            }),
    {
        match self.milliseconds() {
            Some((count, unit)) => {
                proof {
                    lemma_tenths_fit(self.quantum as int, self.rate as int);
                }
                let tenths: u128 = nearest_of(10 * count, unit);
                crate::text::cat4(
                    &decimal_of(self.quantum as u64),
                    " frames · ",
                    &tenths_text(tenths as u64),
                    " ms",
                )
            },
            None => String::from_str("—"),
        }
    }

    /// Whether this is low enough that a game will feel in sync: about ten milliseconds is where a
    /// gunshot stops sounding late. A judgement, not a measurement.
    pub fn is_good_for_games(self) -> (r: bool)
        ensures
            r == (is_known(self) && 2 * milliseconds_of(self.quantum as int, self.rate as int).0
                <= 21 * milliseconds_of(self.quantum as int, self.rate as int).1),
    {
        match self.milliseconds() {
            Some((count, unit)) => 2 * count <= 21 * unit,
            None => false,
        }
    }
}

proof fn lemma_tenths_fit(quantum: int, rate: int)
    requires
        0 < quantum <= u32::MAX,
        0 < rate <= u32::MAX,
        1 <= lift(quantum, rate),
    ensures
        0 <= nearest(
            10 * milliseconds_of(quantum, rate).0,
            milliseconds_of(quantum, rate).1,
        ) <= u64::MAX,
{
    let m = significand(quantum, rate);
    let u = lift(quantum, rate);
    lemma_significand_bound(quantum, rate);
    lemma_whole_near(1000 * m);
    let c = whole(1000 * m);
    let q = (10 * c) / u;
    assert(0 <= q <= 20_000 * (quantum + 1)) by (nonlinear_arith)
        requires
            q == (10 * c) / u,
            0 <= c <= 2000 * m,
            m <= (quantum + 1) * u,
            u >= 1,
            quantum >= 0,
    ;
}

/// What PipeWire is doing right now.
#[derive(Debug, Clone, PartialEq, Eq)]
pub struct Engine {
    pub running: bool,
    pub version: Option<String>,
    pub rate: u32,
    pub quantum: u32,
    /// Non-zero when something has pinned the buffer.
    pub forced_quantum: u32,
    pub forced_rate: u32,
    pub min_quantum: u32,
    pub max_quantum: u32,
}

/// What is known of PipeWire.
#[verifier::ext_equal]
pub struct EngineModel {
    pub running: bool,
    pub version: Option<Seq<char>>,
    pub rate: u32,
    pub quantum: u32,
    pub forced_quantum: u32,
    pub forced_rate: u32,
    pub min_quantum: u32,
    pub max_quantum: u32,
}

impl DeepView for Engine {
    type V = EngineModel;

    open spec fn deep_view(&self) -> EngineModel {
        EngineModel {
            running: self.running,
            version: self.version.deep_view(),
            rate: self.rate,
            quantum: self.quantum,
            forced_quantum: self.forced_quantum,
            forced_rate: self.forced_rate,
            min_quantum: self.min_quantum,
            max_quantum: self.max_quantum,
        }
    }
}

/// A server of which nothing is known.
pub open spec fn silent_engine() -> EngineModel {
    EngineModel {
        running: false,
        version: None,
        rate: 0,
        quantum: 0,
        forced_quantum: 0,
        forced_rate: 0,
        min_quantum: 0,
        max_quantum: 0,
    }
}

impl Default for Engine {
    fn default() -> (r: Engine)
        ensures
            r.deep_view() == silent_engine(),
    {
        Engine {
            running: false,
            version: None,
            rate: 0,
            quantum: 0,
            forced_quantum: 0,
            forced_rate: 0,
            min_quantum: 0,
            max_quantum: 0,
        }
    }
}

/// A number among the settings; zero where it is not there or is no number.
pub open spec fn setting(settings: Map<Seq<char>, Seq<char>>, key: Seq<char>) -> u32 {
    if settings.contains_key(key) {
        match u32_of(settings[key]) {
            Some(n) => n,
            None => 0,
        }
    } else {
        0
    }
}

fn read_setting(settings: &TextMap, key: &str) -> (r: u32)
    ensures
        r == setting(settings@, key@),
{
    match settings.get(key) {
        Some(text) => match read_u32(&chars_of(text)) {
            Some(n) => n,
            None => 0,
        },
        None => 0,
    }
}

impl Engine {
    /// What PipeWire is doing, from its store of settings, where that could be read, and the
    /// version that it gave.
    pub fn read(settings: Option<&TextMap>, version: Option<String>) -> (r: Engine)
        ensures
            r.deep_view() == (match settings {
                None => silent_engine(),
                Some(s) => EngineModel {
                    running: true,
                    version: version.deep_view(),
                    rate: setting(s@, "clock.rate"@),
                    quantum: setting(s@, "clock.quantum"@),
                    forced_quantum: setting(s@, "clock.force-quantum"@),
                    forced_rate: setting(s@, "clock.force-rate"@),
                    min_quantum: setting(s@, "clock.min-quantum"@),
                    max_quantum: setting(s@, "clock.max-quantum"@),
                },
            }),
    {
        match settings {
            None => Engine::default(),
            Some(s) => Engine {
                running: true,
                version,
                rate: read_setting(s, "clock.rate"),
                quantum: read_setting(s, "clock.quantum"),
                forced_quantum: read_setting(s, "clock.force-quantum"),
                forced_rate: read_setting(s, "clock.force-rate"),
                min_quantum: read_setting(s, "clock.min-quantum"),
                max_quantum: read_setting(s, "clock.max-quantum"),
            },
        }
    }

    /// The buffer actually in use: the forced one when there is one.
    pub fn latency(&self) -> (r: Latency)
        ensures
            r.quantum == (if self.forced_quantum > 0 {
                self.forced_quantum
            } else {
                self.quantum
            }),
            r.rate == (if self.forced_rate > 0 {
                self.forced_rate
            } else {
                self.rate
            }),
    {
        Latency {
            quantum: if self.forced_quantum > 0 {
                self.forced_quantum
            } else {
                self.quantum
            },
            rate: if self.forced_rate > 0 {
                self.forced_rate
            } else {
                self.rate
            },
        }
    }
}

/// The version that a line gives.
pub open spec fn version_in(line: Seq<char>) -> Option<Seq<char>> {
    strip_prefix(trim(line), "core.version = "@)
}

/// The version that PipeWire's description of itself gives, without its quotation marks.
pub fn parse_version(text: &str) -> (r: Option<String>)
    ensures
        r.deep_view() == (match first_where(
            lines(text@),
            |line: Seq<char>| version_in(line) is Some,
        ) {
            Some(line) => Some(trim_char(version_in(line)->0, '"')),
            None => None,
        }),
{
    let chars = chars_of(text);
    let all = lines_of(&chars);
    let ghost every = texts(all@);
    let ghost p = |line: Seq<char>| version_in(line) is Some;
    let mark = chars_of("core.version = ");
    let mut i: usize = 0;
    while i < all.len()
        invariant
            i <= all.len(),
            every == texts(all@),
            every == lines(text@),
            mark@ == "core.version = "@,
            p == (|line: Seq<char>| version_in(line) is Some),
            forall|j: int| 0 <= j < i ==> !p(#[trigger] every[j]),
        decreases all.len() - i,
    {
        assert(every[i as int] == all@[i as int]@);
        if let Some(version) = after_prefix(trimmed(all[i]), &mark) {
            proof {
                lemma_first_is(every, p, i as int);
            }
            return Some(string_of(trimmed_char(version, '"')));
        }
        i = i + 1;
    }
    proof {
        lemma_first_none(every, p);
    }
    None
}

/// What follows the first occurrence of a text.
pub open spec fn after(s: Seq<char>, p: Seq<char>) -> Option<Seq<char>> {
    match find(s, p) {
        Some(i) => Some(s.skip(i + p.len())),
        None => None,
    }
}

fn rest_after<'a>(s: &'a [char], p: &str) -> (r: Option<&'a [char]>)
    ensures
        r is Some == after(s@, p@) is Some,
        r is Some ==> r->0@ == after(s@, p@)->0,
{
    let mark = chars_of(p);
    match found(s, &mark) {
        Some(i) => {
            proof {
                crate::text::lemma_find(s@, p@);
            }
            let n: usize = s.len();
            let rest = part(s, i + mark.len(), n);
            assert(rest@ =~= s@.skip(i + mark.len()));
            Some(rest)
        },
        None => None,
    }
}

/// The key and value on a line such as `update: id:0 key:'clock.rate' value:'48000' type:''`.
pub open spec fn pair_in(line: Seq<char>) -> Option<(Seq<char>, Seq<char>)> {
    match after(line, "key:'"@) {
        Some(rest) => match split_once(rest, '\'') {
            Some((key, rest)) => match after(rest, "value:'"@) {
                Some(rest) => match split_once(rest, '\'') {
                    Some((value, _)) => Some((key, value)),
                    None => None,
                },
                None => None,
            },
            None => None,
        },
        None => None,
    }
}

/// The pairs on some lines; a later one replaces an earlier one under the same key.
pub open spec fn pairs_on(all: Seq<Seq<char>>) -> Map<Seq<char>, Seq<char>>
    decreases all.len(),
{
    if all.len() == 0 {
        Map::empty()
    } else {
        match pair_in(all.last()) {
            Some((key, value)) => pairs_on(all.drop_last()).insert(key, value),
            None => pairs_on(all.drop_last()),
        }
    }
}

/// The pairs of keys and values in what `pw-metadata` prints.
pub fn parse_metadata(text: &str) -> (r: TextMap)
    ensures
        r@ == pairs_on(lines(text@)),
{
    let chars = chars_of(text);
    let all = lines_of(&chars);
    let ghost every = texts(all@);
    let mut map = TextMap::new();
    let mut i: usize = 0;
    while i < all.len()
        invariant
            i <= all.len(),
            every == texts(all@),
            map@ == pairs_on(every.take(i as int)),
        decreases all.len() - i,
    {
        assert(every.take(i + 1).drop_last() =~= every.take(i as int));
        assert(every.take(i + 1).last() == all@[i as int]@);
        if let Some(rest) = rest_after(all[i], "key:'") {
            if let Some((key, rest)) = cut(rest, '\'') {
                if let Some(rest) = rest_after(rest, "value:'") {
                    if let Some((value, _)) = cut(rest, '\'') {
                        map.insert(string_of(key), string_of(value));
                    }
                }
            }
        }
        i = i + 1;
    }
    assert(every.take(i as int) =~= every);
    map
}

/// The pairs of a store, from what the command that prints them gave; none where it failed.
pub fn metadata(success: bool, stdout: &str) -> (r: Option<TextMap>)
    ensures
        r is Some == success,
        r is Some ==> r->0@ == pairs_on(lines(stdout@)),
{
    if success {
        Some(parse_metadata(stdout))
    } else {
        None
    }
}

// ---------------------------------------------------------------------------
// Devices
// ---------------------------------------------------------------------------

#[derive(Debug, Clone, PartialEq, Eq)]
pub struct Device {
    pub id: u32,
    /// What PipeWire calls it internally; the default is recorded by name.
    pub name: String,
    /// What to show a person.
    pub description: String,
    pub is_output: bool,
    pub is_default: bool,
    /// `alsa`, `bluez5`, `v4l2`…
    pub api: String,
}

/// What is known of a device.
#[verifier::ext_equal]
pub struct DeviceModel {
    pub id: u32,
    pub name: Seq<char>,
    pub description: Seq<char>,
    pub is_output: bool,
    pub is_default: bool,
    pub api: Seq<char>,
}

impl DeepView for Device {
    type V = DeviceModel;

    open spec fn deep_view(&self) -> DeviceModel {
        DeviceModel {
            id: self.id,
            name: self.name@,
            description: self.description@,
            is_output: self.is_output,
            is_default: self.is_default,
            api: self.api@,
        }
    }
}

/// Outputs come before inputs, the default before the rest, and the rest by description.
impl Ranked for Device {
    open spec fn le(a: DeviceModel, b: DeviceModel) -> bool {
        if a.is_output != b.is_output {
            a.is_output
        } else if a.is_default != b.is_default {
            a.is_default
        } else {
            text_le(a.description, b.description)
        }
    }

    fn at_most(&self, other: &Device) -> (r: bool) {
        if self.is_output != other.is_output {
            self.is_output
        } else if self.is_default != other.is_default {
            self.is_default
        } else {
            no_later(&self.description, &other.description)
        }
    }
}

/// The text of a value, or nothing.
pub open spec fn text_or_empty(m: JsonModel) -> Seq<char> {
    match text_in(m) {
        Some(text) => text,
        None => ""@,
    }
}

/// The properties of an object that PipeWire describes.
pub open spec fn props_of(object: JsonModel) -> JsonModel {
    member(member(object, "info"@), "props"@)
}

/// What is shown of a device: its description, or else its nickname, or else its name.
pub open spec fn shown_name(props: JsonModel) -> Seq<char> {
    match text_in(member(props, "node.description"@)) {
        Some(text) => text,
        None => match text_in(member(props, "node.nick"@)) {
            Some(text) => text,
            None => text_or_empty(member(props, "node.name"@)),
        },
    }
}

/// The device that an object is: a node that is a sink, or a source other than the loopback of a
/// sink.
pub open spec fn device_in(
    object: JsonModel,
    sink: Option<Seq<char>>,
    source: Option<Seq<char>>,
) -> Option<DeviceModel> {
    let props = props_of(object);
    let class = text_or_empty(member(props, "media.class"@));
    let is_output = class == "Audio/Sink"@;
    let name = text_or_empty(member(props, "node.name"@));
    if text_in(member(object, "type"@)) != Some("PipeWire:Interface:Node"@) {
        None
    } else if !is_output && class != "Audio/Source"@ {
        None
    } else if !is_output && ".monitor"@.is_suffix_of(name) {
        None
    } else {
        Some(
            DeviceModel {
                id: match number_in(member(object, "id"@)) {
                    Some(n) => (n % 0x1_0000_0000) as u32,
                    None => 0,
                },
                name,
                description: shown_name(props),
                is_output,
                is_default: (if is_output {
                    sink
                } else {
                    source
                }) == Some(name),
                api: text_or_empty(member(props, "device.api"@)),
            },
        )
    }
}

/// The devices among some objects, in the order they are shown.
pub open spec fn devices_in(
    objects: Seq<JsonModel>,
    sink: Option<Seq<char>>,
    source: Option<Seq<char>>,
) -> Seq<DeviceModel> {
    by_rank::<Device>(objects.filter_map(|object: JsonModel| device_in(object, sink, source)))
}

fn owned_text(value: Option<&Json>) -> (r: String)
    ensures
        r@ == text_or_empty(model_of(value)),
{
    match value {
        Some(v) => match v.text() {
            Some(text) => text.clone(),
            None => String::from_str(""),
        },
        None => String::from_str(""),
    }
}

fn text_under(value: Option<&Json>, key: &str) -> (r: String)
    ensures
        r@ == text_or_empty(member(model_of(value), key@)),
{
    match value {
        Some(v) => owned_text(v.get(key)),
        None => String::from_str(""),
    }
}

fn described(props: Option<&Json>) -> (r: String)
    ensures
        r@ == shown_name(model_of(props)),
{
    if let Some(p) = props {
        if let Some(text) = p.text_at("node.description") {
            return text.clone();
        }
        if let Some(text) = p.text_at("node.nick") {
            return text.clone();
        }
    }
    text_under(props, "node.name")
}

fn is_text(name: Option<&str>, text: &str) -> (r: bool)
    ensures
        r == (name.deep_view() == Some(text@)),
{
    match name {
        Some(n) => equal(n, text),
        None => false,
    }
}

/// The device that an object is.
pub fn parse_node(object: &Json, sink: Option<&str>, source: Option<&str>) -> (r: Option<Device>)
    ensures
        r.deep_view() == device_in(object.model(), sink.deep_view(), source.deep_view()),
{
    match object.text_at("type") {
        Some(kind) => {
            if !equal(kind, "PipeWire:Interface:Node") {
                return None;
            }
        },
        None => {
            return None;
        },
    }
    let props: Option<&Json> = match object.get("info") {
        Some(info) => info.get("props"),
        None => None,
    };
    let class = text_under(props, "media.class");
    let is_output: bool = equal(&class, "Audio/Sink");
    if !is_output && !equal(&class, "Audio/Source") {
        return None;
    }
    let name = text_under(props, "node.name");
    if !is_output && ends_with(&chars_of(&name), ".monitor") {
        return None;
    }
    let id: u32 = match object.get("id") {
        Some(value) => match value.number() {
            Some(n) => (n % 0x1_0000_0000) as u32,
            None => 0,
        },
        None => 0,
    };
    let is_default: bool = if is_output {
        is_text(sink, &name)
    } else {
        is_text(source, &name)
    };
    Some(
        Device {
            id,
            name,
            description: described(props),
            is_output,
            is_default,
            api: text_under(props, "device.api"),
        },
    )
}

/// The devices among the objects of a dump.
pub fn dump_devices(dump: &Json, sink: Option<&str>, source: Option<&str>) -> (r: Vec<Device>)
    ensures
        r.deep_view() == (match list_in(dump.model()) {
            Some(objects) => devices_in(objects, sink.deep_view(), source.deep_view()),
            None => Seq::empty(),
        }),
{
    match dump.list() {
        Some(objects) => {
            let ghost every = models(objects@);
            let ghost a = sink.deep_view();
            let ghost b = source.deep_view();
            let ghost f = |object: JsonModel| device_in(object, a, b);
            let mut out: Vec<Device> = Vec::new();
            let mut i: usize = 0;
            while i < objects.len()
                invariant
                    i <= objects.len(),
                    every == models(objects@),
                    a == sink.deep_view(),
                    b == source.deep_view(),
                    f == (|object: JsonModel| device_in(object, a, b)),
                    out.deep_view() == every.take(i as int).filter_map(f),
                decreases objects.len() - i,
            {
                proof {
                    lemma_filter_map_step(every, i as int, f);
                    assert(every[i as int] == objects@[i as int].model());
                }
                let ghost before = out.deep_view();
                if let Some(device) = parse_node(&objects[i], sink, source) {
                    let ghost item = device.deep_view();
                    out.push(device);
                    assert(out.deep_view() =~= before.push(item));
                }
                i = i + 1;
            }
            assert(every.take(i as int) =~= every);
            sort(out)
        },
        None => {
            let none: Vec<Device> = Vec::new();
            assert(none.deep_view() =~= Seq::empty());
            none
        },
    }
}

/// The devices in the text of a dump; none where it is no list.
pub open spec fn dumped(
    text: Seq<char>,
    sink: Option<Seq<char>>,
    source: Option<Seq<char>>,
) -> Seq<DeviceModel> {
    match json_read(text) {
        Some(dump) => match list_in(dump) {
            Some(objects) => devices_in(objects, sink, source),
            None => Seq::empty(),
        },
        None => Seq::empty(),
    }
}

/// The devices in the text of a dump.
pub fn parse_dump(json: &str, sink: Option<&str>, source: Option<&str>) -> (r: Vec<Device>)
    ensures
        r.deep_view() == dumped(json@, sink.deep_view(), source.deep_view()),
{
    match read_json(json) {
        Some(dump) => dump_devices(&dump, sink, source),
        None => {
            let none: Vec<Device> = Vec::new();
            assert(none.deep_view() =~= Seq::empty());
            none
        },
    }
}

/// The name in the value that records a default: `{"name":"alsa_output.…"}`.
pub open spec fn recorded_name(value: Option<Seq<char>>) -> Option<Seq<char>> {
    match value {
        Some(text) => match json_read(text) {
            Some(v) => text_in(member(v, "name"@)),
            None => None,
        },
        None => None,
    }
}

/// The name in the value that records a default.
pub fn json_name(value: Option<&String>) -> (r: Option<String>)
    ensures
        r.deep_view() == recorded_name(
            match value {
                Some(text) => Some(text@),
                None => None,
            },
        ),
{
    match value {
        Some(text) => match read_json(text) {
            Some(v) => match v.text_at("name") {
                Some(name) => Some(name.clone()),
                None => None,
            },
            None => None,
        },
        None => None,
    }
}

/// What a store holds under a key.
pub open spec fn held_under(
    store: Option<Map<Seq<char>, Seq<char>>>,
    key: Seq<char>,
) -> Option<Seq<char>> {
    match store {
        Some(map) => if map.contains_key(key) {
            Some(map[key])
        } else {
            None
        },
        None => None,
    }
}

/// What is in a store that could be read.
pub open spec fn store_of(store: Option<&TextMap>) -> Option<Map<Seq<char>, Seq<char>>> {
    match store {
        Some(map) => Some(map@),
        None => None,
    }
}

fn default_in(store: Option<&TextMap>, key: &str) -> (r: Option<String>)
    ensures
        r.deep_view() == recorded_name(held_under(store_of(store), key@)),
{
    match store {
        Some(map) => json_name(map.get(key)),
        None => None,
    }
}

/// Every audio sink and source PipeWire knows about, from its dump, where there is one, and its
/// store of defaults.
pub fn devices(dump: Option<&str>, defaults: Option<&TextMap>) -> (r: Vec<Device>)
    ensures
        r.deep_view() == (match dump {
            Some(text) => dumped(
                text@,
                recorded_name(held_under(store_of(defaults), "default.audio.sink"@)),
                recorded_name(held_under(store_of(defaults), "default.audio.source"@)),
            ),
            None => Seq::empty(),
        }),
{
    match dump {
        Some(text) => {
            let sink = default_in(defaults, "default.audio.sink");
            let source = default_in(defaults, "default.audio.source");
            let sink: Option<&str> = match &sink {
                Some(name) => Some(name.as_str()),
                None => None,
            };
            let source: Option<&str> = match &source {
                Some(name) => Some(name.as_str()),
                None => None,
            };
            parse_dump(text, sink, source)
        },
        None => {
            let none: Vec<Device> = Vec::new();
            assert(none.deep_view() =~= Seq::empty());
            none
        },
    }
}

/// The command that makes a device the one games will use. An error where the tool for it is not
/// installed.
pub fn set_default(wpctl: Option<&str>, device: &Device) -> (r: Result<Vec<String>, String>)
    ensures
        r is Ok == wpctl is Some,
        match r {
            Ok(command) => command.deep_view() == seq![
                wpctl->0@,
                "set-default"@,
                decimal(device.id as int),
            ],
            Err(message) => message@ == "wpctl is not installed"@,
        },
{
    match wpctl {
        Some(program) => {
            let mut command: Vec<String> = Vec::new();
            command.push(String::from_str(program));
            command.push(String::from_str("set-default"));
            command.push(decimal_of(device.id as u64));
            assert(command.deep_view() =~= seq![
                program@,
                "set-default"@,
                decimal(device.id as int),
            ]);
            Ok(command)
        },
        None => Err(String::from_str("wpctl is not installed")),
    }
}

/// What is said where that command could not be run.
pub fn wpctl_failure(error: &str) -> (r: String)
    ensures
        r@ == "Could not run wpctl: "@ + error@,
{
    cat2("Could not run wpctl: ", error)
}

/// What came of making a device the default.
pub fn default_outcome(success: bool, device: &Device) -> (r: Result<(), String>)
    ensures
        r is Ok == success,
        r is Err ==> r->Err_0@ == "PipeWire would not switch to "@ + device.description@,
{
    if success {
        Ok(())
    } else {
        Err(cat2("PipeWire would not switch to ", &device.description))
    }
}

// ---------------------------------------------------------------------------
// Changing the buffer
// ---------------------------------------------------------------------------

/// The arguments that set one key in the `settings` store.
pub open spec fn setting_args(key: Seq<char>, value: int) -> Seq<Seq<char>> {
    seq!["-n"@, "settings"@, "0"@, key, decimal(value)]
}

/// The arguments that set one key in the `settings` store.
///
/// The `0` is the subject id and is not optional. Without it `pw-metadata` reads the key as the
/// subject, treats the whole thing as a query, and exits successfully having changed nothing.
pub fn set_args(key: &str, value: u32) -> (r: Vec<String>)
    ensures
        r.deep_view() == setting_args(key@, value as int),
{
    let mut args: Vec<String> = Vec::new();
    args.push(String::from_str("-n"));
    args.push(String::from_str("settings"));
    args.push(String::from_str("0"));
    args.push(String::from_str(key));
    args.push(decimal_of(value as u64));
    assert(args.deep_view() =~= setting_args(key@, value as int));
    args
}

/// The command that sets one key in the `settings` store. An error where the tool for it is not
/// installed.
pub fn set_metadata(binary: Option<&str>, key: &str, value: u32) -> (r: Result<
    Vec<String>,
    String,
>)
    ensures
        r is Ok == binary is Some,
        match r {
            Ok(command) => command.deep_view() == seq![binary->0@] + setting_args(
                key@,
                value as int,
            ),
            Err(message) => message@ == "pw-metadata is not installed"@,
        },
{
    match binary {
        Some(program) => {
            let mut command: Vec<String> = Vec::new();
            command.push(String::from_str(program));
            let ghost first = command.deep_view();
            let mut args = set_args(key, value);
            let ghost rest = args.deep_view();
            command.append(&mut args);
            assert(command.deep_view() =~= first + rest);
            assert(first =~= seq![program@]);
            Ok(command)
        },
        None => Err(String::from_str("pw-metadata is not installed")),
    }
}

/// What is said where that command could not be run.
pub fn metadata_failure(error: &str) -> (r: String)
    ensures
        r@ == "Could not run pw-metadata: "@ + error@,
{
    cat2("Could not run pw-metadata: ", error)
}

/// What came of setting a key. A successful exit is not proof: a malformed command line makes
/// `pw-metadata` print the store and exit zero. It echoes a `set property:` line when it has
/// actually written something.
pub fn set_outcome(success: bool, stderr: &str, stdout: &str, key: &str) -> (r: Result<(), String>)
    ensures
        r is Ok == (success && contains(stdout@, "set property:"@)),
        r is Err ==> r->Err_0@ == (if success {
            "PipeWire did not accept "@ + key@
        } else {
            match final_line(stderr@) {
                Some(line) => line,
                None => "PipeWire refused the change"@,
            }
        }),
{
    if !success {
        return match last_line(stderr) {
            Some(line) => Err(line),
            None => Err(String::from_str("PipeWire refused the change")),
        };
    }
    if holds(&chars_of(stdout), "set property:") {
        Ok(())
    } else {
        Err(cat2("PipeWire did not accept ", key))
    }
}

fn is_among(list: &[u32], n: u32) -> (r: bool)
    ensures
        r == list@.contains(n),
{
    let mut i: usize = 0;
    while i < list.len()
        invariant
            i <= list@.len(),
            forall|j: int| 0 <= j < i ==> list@[j] != n,
        decreases list@.len() - i,
    {
        if list[i] == n {
            return true;
        }
        i = i + 1;
    }
    false
}

/// A buffer size is one that is offered.
pub open spec fn is_offered_quantum(quantum: u32) -> bool {
    quantum == 1024 || quantum == 512 || quantum == 256 || quantum == 128 || quantum == 64
}

/// A sample rate is one that is offered.
pub open spec fn is_offered_rate(rate: u32) -> bool {
    rate == 48_000 || rate == 44_100 || rate == 96_000 || rate == 192_000
}

/// The command that applies a buffer size to the running server; zero gives the choice back to it.
/// A size that is not offered is refused.
///
/// Live first, and only then written to disk: a buffer too small for the machine crackles, and that
/// has to be audible and undoable before it becomes the setting this computer boots with.
pub fn apply_quantum(binary: Option<&str>, quantum: u32) -> (r: Result<Vec<String>, String>)
    ensures
        r is Ok == ((quantum == 0 || is_offered_quantum(quantum)) && binary is Some),
        match r {
            Ok(command) => command.deep_view() == seq![binary->0@] + setting_args(
                "clock.force-quantum"@,
                quantum as int,
            ),
            Err(message) => message@ == (if quantum == 0 || is_offered_quantum(quantum) {
                "pw-metadata is not installed"@
            } else {
                "Not a buffer size this app offers: "@ + decimal(quantum as int)
            }),
        },
{
    let offered = QUANTA;
    let known: bool = is_among(&offered, quantum);
    proof {
        let list = offered@;
        assert(list[0] == 1024 && list[1] == 512 && list[2] == 256 && list[3] == 128 && list[4]
            == 64);
        if is_offered_quantum(quantum) {
            assert(list.contains(quantum));
        }
    }
    if quantum != 0 && !known {
        return Err(cat2("Not a buffer size this app offers: ", &decimal_of(quantum as u64)));
    }
    set_metadata(binary, "clock.force-quantum", quantum)
}

/// The command that applies a sample rate to the running server; zero gives the choice back to it.
/// A rate that is not offered is refused.
pub fn apply_rate(binary: Option<&str>, rate: u32) -> (r: Result<Vec<String>, String>)
    ensures
        r is Ok == ((rate == 0 || is_offered_rate(rate)) && binary is Some),
        match r {
            Ok(command) => command.deep_view() == seq![binary->0@] + setting_args(
                "clock.force-rate"@,
                rate as int,
            ),
            Err(message) => message@ == (if rate == 0 || is_offered_rate(rate) {
                "pw-metadata is not installed"@
            } else {
                "Not a sample rate this app offers: "@ + decimal(rate as int)
            }),
        },
{
    let offered = RATES;
    let known: bool = is_among(&offered, rate);
    proof {
        let list = offered@;
        assert(list[0] == 48_000 && list[1] == 44_100 && list[2] == 96_000 && list[3] == 192_000);
        if is_offered_rate(rate) {
            assert(list.contains(rate));
        }
    }
    if rate != 0 && !known {
        return Err(cat2("Not a sample rate this app offers: ", &decimal_of(rate as u64)));
    }
    set_metadata(binary, "clock.force-rate", rate)
}

/// Where a persisted change goes: one file in the user's own configuration.
pub open spec fn config_place(home: Option<Seq<char>>, config_home: Option<Seq<char>>) -> Seq<
    char,
> {
    let config = match config_home {
        Some(dir) => dir,
        None => crate::path::join(home_or_here(home), ".config"@),
    };
    crate::path::join(
        crate::path::join(config, "pipewire"@),
        "pipewire.conf.d/99-raven-gaming.conf"@,
    )
}

/// Where a persisted change goes: one file in the user's own configuration. Deleting it restores
/// PipeWire's defaults exactly.
pub fn config_path(home: Option<&str>, config_home: Option<&str>) -> (r: String)
    ensures
        r@ == config_place(home.deep_view(), config_home.deep_view()),
{
    let config = match config_home {
        Some(dir) => String::from_str(dir),
        None => joined_path(&home_dir(home), ".config"),
    };
    joined_path(&joined_path(&config, "pipewire"), "pipewire.conf.d/99-raven-gaming.conf")
}

/// Whether a change is persisted: its file is among those that exist.
pub fn is_persisted(home: Option<&str>, config_home: Option<&str>, files: &NameSet) -> (r: bool)
    ensures
        r == files@.contains(config_place(home.deep_view(), config_home.deep_view())),
{
    files.contains(&config_path(home, config_home))
}

/// What is written of a choice; a number that is zero was not chosen.
pub open spec fn written_config(quantum: u32, rate: u32) -> Seq<char> {
    "# Written by Raven Gaming. Delete this file, or use Restore in the\n# app, to go back to PipeWire's own settings.\ncontext.properties = {\n"@
        + (if quantum > 0 {
        "    default.clock.quantum       = "@ + decimal(quantum as int) + "\n"@
            + "    default.clock.min-quantum   = "@ + decimal(
            if quantum < 32 {
                quantum as int
            } else {
                32
            },
        ) + "\n"@
    } else {
        ""@
    }) + (if rate > 0 {
        "    default.clock.rate          = "@ + decimal(rate as int) + "\n"@
            + "    default.clock.allowed-rates = [ "@ + decimal(rate as int) + " ]\n"@
    } else {
        ""@
    }) + "}\n"@
}

/// The text of the file that a choice is persisted in, so that it survives a reboot. A forced
/// buffer outside the allowed range is ignored, so the range moves with it.
pub fn config_text(quantum: u32, rate: u32) -> (r: String)
    ensures
        r@ == written_config(quantum, rate),
{
    let mut text = String::from_str(
        "# Written by Raven Gaming. Delete this file, or use Restore in the\n# app, to go back to PipeWire's own settings.\ncontext.properties = {\n",
    );
    let buffer: String = if quantum > 0 {
        let lowest: u32 = if quantum < 32 {
            quantum
        } else {
            32
        };
        let mut part = cat3(
            "    default.clock.quantum       = ",
            &decimal_of(quantum as u64),
            "\n",
        );
        part.append("    default.clock.min-quantum   = ");
        part.append(&decimal_of(lowest as u64));
        part.append("\n");
        part
    } else {
        String::from_str("")
    };
    let speed: String = if rate > 0 {
        let mut part = cat3("    default.clock.rate          = ", &decimal_of(rate as u64), "\n");
        part.append("    default.clock.allowed-rates = [ ");
        part.append(&decimal_of(rate as u64));
        part.append(" ]\n");
        part
    } else {
        String::from_str("")
    };
    text.append(&buffer);
    text.append(&speed);
    text.append("}\n");
    text
}

/// What is written so that a choice survives a reboot: where, and the text. The directory may have
/// to be made first. No root is needed: PipeWire reads the user's own configuration.
pub fn persist(home: Option<&str>, config_home: Option<&str>, quantum: u32, rate: u32) -> (r: (
    String,
    String,
))
    ensures
        r.0@ == config_place(home.deep_view(), config_home.deep_view()),
        r.1@ == written_config(quantum, rate),
{
    (config_path(home, config_home), config_text(quantum, rate))
}

/// What came of removing a file.
#[derive(Debug)]
pub enum Removal {
    Removed,
    /// There was no such file.
    Absent,
    Failed(String),
}

/// A file that is gone is as good as one that was removed.
pub fn removal_outcome(path: &str, removal: &Removal) -> (r: Result<(), String>)
    ensures
        r is Err == (removal is Failed),
        r is Err ==> r->Err_0@ == path@ + ": "@ + removal->Failed_0@,
{
    match removal {
        Removal::Removed => Ok(()),
        Removal::Absent => Ok(()),
        Removal::Failed(error) => Err(crate::tune::file_failure(path, error)),
    }
}

/// What is undone in turn: the file, then the forced buffer, then the forced rate.
#[derive(Debug, Clone, Copy, PartialEq, Eq, Structural)]
pub enum Undo {
    File,
    Quantum,
    Rate,
}

/// What is to be undone next, after something was or was not; nothing where all is done. The first
/// failure ends it.
pub fn restore(done: Undo, outcome: Result<(), String>) -> (r: Result<Option<Undo>, String>)
    ensures
        r is Ok == outcome is Ok,
        r is Err ==> r->Err_0 == outcome->Err_0,
        r is Ok ==> r->Ok_0 == (match done {
            Undo::File => Some(Undo::Quantum),
            Undo::Quantum => Some(Undo::Rate),
            Undo::Rate => None,
        }),
{
    match outcome {
        Ok(_) => Ok(
            match done {
                Undo::File => Some(Undo::Quantum),
                Undo::Quantum => Some(Undo::Rate),
                Undo::Rate => None,
            },
        ),
        Err(message) => Err(message),
    }
}

/// Whether the 32-bit audio libraries are installed, by the files that exist. A 32-bit game without
/// them runs perfectly and in total silence.
pub fn has_32bit_audio(files: &NameSet) -> (r: bool)
    ensures
        r == (files@.contains("/usr/lib32/libpulse.so.0"@) || files@.contains(
            "/usr/lib32/pipewire-0.3/libpipewire-module-protocol-pulse.so"@,
        ) || files@.contains("/usr/lib/i386-linux-gnu/libpulse.so.0"@) || files@.contains(
            "/usr/lib/i386-linux-gnu/pipewire-0.3/libpipewire-module-protocol-pulse.so"@,
        )),
{
    files.contains("/usr/lib32/libpulse.so.0") || files.contains(
        "/usr/lib32/pipewire-0.3/libpipewire-module-protocol-pulse.so",
    ) || files.contains("/usr/lib/i386-linux-gnu/libpulse.so.0") || files.contains(
        "/usr/lib/i386-linux-gnu/pipewire-0.3/libpipewire-module-protocol-pulse.so",
    )
}

// ---------------------------------------------------------------------------
// Laws
// ---------------------------------------------------------------------------

/// Devices can be ranked: of two one comes no later, and the order is transitive.
pub proof fn devices_can_be_ranked()
    ensures
        ranks(|a: DeviceModel, b: DeviceModel| <Device as Ranked>::le(a, b)),
{
    let le = |a: DeviceModel, b: DeviceModel| <Device as Ranked>::le(a, b);
    assert forall|a: DeviceModel, b: DeviceModel| #[trigger] le(a, b) || le(b, a) by {
        text_le_total(a.description, b.description);
    }
    assert forall|a: DeviceModel, b: DeviceModel, c: DeviceModel|
        #[trigger] le(a, b) && #[trigger] le(b, c) implies le(a, c) by {
        if a.is_output == b.is_output && b.is_output == c.is_output && a.is_default == b.is_default
            && b.is_default == c.is_default {
            text_le_transitive(a.description, b.description, c.description);
        }
    }
}

/// Outputs are listed before inputs, and the default of each before the rest.
pub proof fn defaults_come_first(
    objects: Seq<JsonModel>,
    sink: Option<Seq<char>>,
    source: Option<Seq<char>>,
    i: int,
    j: int,
)
    requires
        0 <= i < j < devices_in(objects, sink, source).len(),
    ensures
        devices_in(objects, sink, source)[j].is_output ==> devices_in(
            objects,
            sink,
            source,
        )[i].is_output,
        devices_in(objects, sink, source)[i].is_output == devices_in(
            objects,
            sink,
            source,
        )[j].is_output && devices_in(objects, sink, source)[j].is_default ==> devices_in(
            objects,
            sink,
            source,
        )[i].is_default,
{
    let le = |a: DeviceModel, b: DeviceModel| <Device as Ranked>::le(a, b);
    let found = objects.filter_map(|object: JsonModel| device_in(object, sink, source));
    devices_can_be_ranked();
    sorting_orders(found, le);
    let out = devices_in(objects, sink, source);
    assert(in_order(out, le));
    assert(le(out[i], out[j]));
}

/// The loopback of a sink is never listed as a microphone.
pub proof fn a_monitor_is_no_microphone(
    object: JsonModel,
    sink: Option<Seq<char>>,
    source: Option<Seq<char>>,
)
    requires
        device_in(object, sink, source) is Some,
        ".monitor"@.is_suffix_of(device_in(object, sink, source)->0.name),
    ensures
        device_in(object, sink, source)->0.is_output,
{
}

/// An object is a device exactly where it is a node of the audio graph that is a sink, or a source that is
/// not the loopback of a sink; it is an output where it is a sink.
pub proof fn sinks_and_sources_are_devices(
    object: JsonModel,
    sink: Option<Seq<char>>,
    source: Option<Seq<char>>,
    class: Seq<char>,
    name: Seq<char>,
)
    requires
        text_in(member(member(member(object, "info"@), "props"@), "media.class"@)) == Some(class),
        text_in(member(member(member(object, "info"@), "props"@), "node.name"@)) == Some(name),
    ensures
        device_in(object, sink, source) is Some <==> text_in(member(object, "type"@)) == Some(
            "PipeWire:Interface:Node"@,
        ) && (class == "Audio/Sink"@ || (class == "Audio/Source"@ && !".monitor"@.is_suffix_of(name))),
        device_in(object, sink, source) is Some ==> {
            let d = device_in(object, sink, source)->0;
            &&& d.name == name
            &&& d.is_output <==> class == "Audio/Sink"@
            &&& d.is_output ==> (d.is_default <==> sink == Some(name))
            &&& !d.is_output ==> (d.is_default <==> source == Some(name))
        },
{
}

/// A device is shown by its description, else by its nickname, else by its name, and is addressed by the
/// number that the audio server gave it.
pub proof fn devices_are_shown_by_their_description(
    object: JsonModel,
    sink: Option<Seq<char>>,
    source: Option<Seq<char>>,
)
    requires
        device_in(object, sink, source) is Some,
    ensures
        ({
            let d = device_in(object, sink, source)->0;
            let props = member(member(object, "info"@), "props"@);
            let description = text_in(member(props, "node.description"@));
            let nick = text_in(member(props, "node.nick"@));
            &&& description is Some ==> d.description == description->0
            &&& description is None && nick is Some ==> d.description == nick->0
            &&& description is None && nick is None ==> d.description == d.name
            &&& text_in(member(props, "device.api"@)) is Some ==> d.api == text_in(
                member(props, "device.api"@),
            )->0
            &&& forall|n: u64| #[trigger]
                is_number(member(object, "id"@), n) && n <= u32::MAX ==> d.id == n
        }),
{
}

/// A value is a number.
pub open spec fn is_number(m: JsonModel, n: u64) -> bool {
    number_in(m) == Some(n)
}

/// A pair is read from the line that the tool prints for it, whatever stands round it.
pub proof fn pairs_are_read_from_their_lines(
    before: Seq<char>,
    key: Seq<char>,
    between: Seq<char>,
    value: Seq<char>,
    after: Seq<char>,
)
    requires
        !key.contains('\''),
        !value.contains('\''),
        forall|j: int|
            0 <= j < before.len() ==> !"key:'"@.is_prefix_of(
                #[trigger] (before + "key:'"@ + key + seq!['\''] + between + "value:'"@ + value + seq!['\'']
                    + after).skip(j),
            ),
        forall|j: int|
            0 <= j < between.len() ==> !"value:'"@.is_prefix_of(
                #[trigger] (between + "value:'"@ + value + seq!['\''] + after).skip(j),
            ),
    ensures
        pair_in(
            before + "key:'"@ + key + seq!['\''] + between + "value:'"@ + value + seq!['\''] + after,
        ) == Some((key, value)),
{
    let line = before + "key:'"@ + key + seq!['\''] + between + "value:'"@ + value + seq!['\''] + after;
    let tail = between + "value:'"@ + value + seq!['\''] + after;
    let named = key.push('\'') + tail;
    let last = value.push('\'') + after;
    assert(line == before + "key:'"@ + named) by {
        assert(line =~= before + "key:'"@ + named);
    }
    assert(tail == between + "value:'"@ + last) by {
        assert(tail =~= between + "value:'"@ + last);
    }
    lemma_marked(line, before, "key:'"@, named);
    lemma_quoted(key, tail);
    lemma_marked(tail, between, "value:'"@, last);
    lemma_quoted(value, after);
}

/// A mark is found behind what precedes it, where it does not begin earlier.
proof fn lemma_marked(line: Seq<char>, before: Seq<char>, mark: Seq<char>, rest: Seq<char>)
    requires
        line == before + mark + rest,
        forall|j: int| 0 <= j < before.len() ==> !mark.is_prefix_of(#[trigger] line.skip(j)),
    ensures
        after(line, mark) == Some(rest),
{
    let at = before.len() as int;
    assert(line.skip(at) =~= mark + rest);
    assert((mark + rest).subrange(0, mark.len() as int) =~= mark);
    crate::text::a_pattern_is_found_where_it_begins(line, mark, at);
    assert(line.skip(at + mark.len()) =~= rest);
}

proof fn lemma_quoted(text: Seq<char>, rest: Seq<char>)
    requires
        !text.contains('\''),
    ensures
        split_once(text.push('\'') + rest, '\'') == Some((text, rest)),
{
    let s = text.push('\'') + rest;
    crate::text::lemma_find_char(s, '\'');
    let i = crate::text::find_char(s, '\'');
    assert(s[text.len() as int] == '\'');
    if i < text.len() {
        assert(text[i] == s[i]);
        assert(text.contains('\''));
    }
    assert(s.take(i) =~= text);
    assert(s.skip(i + 1) =~= rest);
}

/// Of several pairs under one key the last counts, and lines without a pair change nothing.
pub proof fn the_last_pair_counts(all: Seq<Seq<char>>, line: Seq<char>, key: Seq<char>, value: Seq<char>)
    ensures
        pair_in(line) == Some((key, value)) ==> pairs_on(all.push(line)) == pairs_on(all).insert(
            key,
            value,
        ),
        pair_in(line) is None ==> pairs_on(all.push(line)) == pairs_on(all),
        pairs_on(Seq::empty()) == Map::<Seq<char>, Seq<char>>::empty(),
{
    assert(all.push(line).drop_last() =~= all);
}

/// A number among the settings is read as it is written, and what is no number, or is not there, is zero.
pub proof fn settings_are_numbers(settings: Map<Seq<char>, Seq<char>>, key: Seq<char>, n: u32)
    ensures
        setting(settings.insert(key, decimal(n as int)), key) == n,
        !settings.contains_key(key) ==> setting(settings, key) == 0,
        settings.contains_key(key) && u32_of(settings[key]) is None ==> setting(settings, key) == 0,
{
    crate::number::written_reads_back(n as int, 10, u32::MAX as int);
}

/// The sizes and rates that can be applied are exactly those that are shown.
pub proof fn what_is_shown_can_be_applied(n: u32)
    ensures
        QUANTA@.contains(n) <==> is_offered_quantum(n),
        RATES@.contains(n) <==> is_offered_rate(n),
        is_offered_quantum(n) <==> n == 64 || n == 128 || n == 256 || n == 512 || n == 1024,
        is_offered_rate(n) <==> n == 44_100 || n == 48_000 || n == 96_000 || n == 192_000,
{
    assert(QUANTA@ =~= seq![1024u32, 512, 256, 128, 64]);
    assert(RATES@ =~= seq![48_000u32, 44_100, 96_000, 192_000]);
    assert(QUANTA@[0] == 1024 && QUANTA@[1] == 512 && QUANTA@[2] == 256 && QUANTA@[3] == 128 && QUANTA@[4]
        == 64);
    assert(RATES@[0] == 48_000 && RATES@[1] == 44_100 && RATES@[2] == 96_000 && RATES@[3] == 192_000);
}

/// A choice is persisted in one file of the user's own configuration of the audio server: below the
/// directory that the session names for that, else below the home directory's.
pub proof fn a_choice_is_kept_in_the_users_own_file(home: Seq<char>, config: Option<Seq<char>>)
    ensures
        config is Some ==> config_place(Some(home), config) == crate::path::join(
            crate::path::join(config->0, "pipewire"@),
            "pipewire.conf.d/99-raven-gaming.conf"@,
        ),
        config is None ==> config_place(Some(home), config) == crate::path::join(
            crate::path::join(crate::path::join(home, ".config"@), "pipewire"@),
            "pipewire.conf.d/99-raven-gaming.conf"@,
        ),
{
}

/// What is written of a choice sets what was chosen: the buffer as the default, with a lower bound that
/// does not keep it out, and the rate as the default and the only one allowed. What was not chosen is not
/// mentioned.
#[verifier::rlimit(40)]
pub proof fn only_what_was_chosen_is_written(quantum: u32, rate: u32)
    ensures
        quantum > 0 ==> contains(
            written_config(quantum, rate),
            "    default.clock.quantum       = "@ + decimal(quantum as int) + "\n"@,
        ),
        quantum >= 32 ==> contains(
            written_config(quantum, rate),
            "    default.clock.min-quantum   = "@ + decimal(32) + "\n"@,
        ),
        0 < quantum < 32 ==> contains(
            written_config(quantum, rate),
            "    default.clock.min-quantum   = "@ + decimal(quantum as int) + "\n"@,
        ),
        rate > 0 ==> contains(
            written_config(quantum, rate),
            "    default.clock.rate          = "@ + decimal(rate as int) + "\n"@,
        ),
        rate > 0 ==> contains(
            written_config(quantum, rate),
            "    default.clock.allowed-rates = [ "@ + decimal(rate as int) + " ]\n"@,
        ),
        quantum == 0 && rate == 0 ==> written_config(quantum, rate)
            == "# Written by Raven Gaming. Delete this file, or use Restore in the\n# app, to go back to PipeWire's own settings.\ncontext.properties = {\n"@
            + "}\n"@,
{
    reveal_strlit("");
    let head
        = "# Written by Raven Gaming. Delete this file, or use Restore in the\n# app, to go back to PipeWire's own settings.\ncontext.properties = {\n"@;
    let all = written_config(quantum, rate);
    let none = Seq::<char>::empty();
    assert(""@ =~= none);
    let q1 = "    default.clock.quantum       = "@ + decimal(quantum as int) + "\n"@;
    let low = if quantum < 32 {
        quantum as int
    } else {
        32
    };
    let q2 = "    default.clock.min-quantum   = "@ + decimal(low) + "\n"@;
    let r1 = "    default.clock.rate          = "@ + decimal(rate as int) + "\n"@;
    let r2 = "    default.clock.allowed-rates = [ "@ + decimal(rate as int) + " ]\n"@;
    let q = if quantum > 0 {
        q1 + q2
    } else {
        none
    };
    let r = if rate > 0 {
        r1 + r2
    } else {
        none
    };
    assert(all =~= head + q + r + "}\n"@);
    if quantum > 0 {
        lemma_inside(head, q1, q2 + r + "}\n"@, all);
        lemma_inside(head + q1, q2, r + "}\n"@, all);
    }
    if rate > 0 {
        lemma_inside(head + q, r1, r2 + "}\n"@, all);
        lemma_inside(head + q + r1, r2, "}\n"@, all);
    }
}

proof fn lemma_inside(before: Seq<char>, part: Seq<char>, after: Seq<char>, all: Seq<char>)
    requires
        all =~= before + part + after,
    ensures
        contains(all, part),
{
    let n = before.len() as int;
    assert(all.subrange(n, n + part.len()) =~= part);
}

} // verus!
