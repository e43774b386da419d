//! Live readings from the graphics cards and the CPU.
//!
//! AMD and Intel put everything in `sysfs`; NVIDIA puts nothing useful there, and `nvidia-smi` is
//! asked instead. Every field is optional: a card sitting at 0% and a card that will not say are
//! different things.
use vstd::prelude::*;
use crate::binary::{
    fixed, hundredths_text, lift, nearest, nearest_of, quotient_of, significand, tenths_text, whole,
    whole_of,
};
use crate::gpu::{file_number, read_num, read_text, Gpu, Vendor};
use crate::lists::{
    first_where, lemma_filter_map_step, lemma_first_is, lemma_first_none,
};
use crate::number::{
    decimal, decimal_of, digit_run, is_real, read_u32, read_u64, reads_as_real, run_of_digits, u32_of,
    u64_of,
};
use crate::order::{
    by_rank, no_later, sort, sorting_orders, text_le, texts_can_be_ranked, Ranked,
};
use crate::text::{
    after_prefix, cat2, cat4, chars_of, ends_with, lines, lines_of, part, pieces, reads,
    split, starts_with, string_of, strip_prefix, texts, trim, trim_end, trimmed, trimmed_end, words,
    words_of,
};

verus! {

// ---------------------------------------------------------------------------
// Graphics cards
// ---------------------------------------------------------------------------

/// A measured amount, as it was given.
#[derive(Debug, Clone, PartialEq, Eq)]
pub enum Measure {
    /// So many parts, of which so many make a whole unit.
    Parts { count: u64, per_unit: u64 },
    /// A number written out.
    Written(String),
}

/// What a measured amount is.
#[verifier::ext_equal]
pub enum MeasureModel {
    Parts { count: u64, per_unit: u64 },
    Written(Seq<char>),
}

impl DeepView for Measure {
    type V = MeasureModel;

    open spec fn deep_view(&self) -> MeasureModel {
        match self {
            Measure::Parts { count, per_unit } => MeasureModel::Parts {
                count: *count,
                per_unit: *per_unit,
            },
            Measure::Written(s) => MeasureModel::Written(s@),
        }
    }
}

#[derive(Debug, Clone, PartialEq, Eq)]
pub struct GpuReading {
    /// 0–100.
    pub utilization: Option<u32>,
    pub temperature_c: Option<Measure>,
    pub power_w: Option<Measure>,
    pub core_mhz: Option<u32>,
    pub memory_used_mb: Option<u64>,
    pub memory_total_mb: Option<u64>,
    pub fan_percent: Option<u32>,
}

/// What a card was read to be doing.
#[verifier::ext_equal]
pub struct GpuReadingModel {
    pub utilization: Option<u32>,
    pub temperature_c: Option<MeasureModel>,
    pub power_w: Option<MeasureModel>,
    pub core_mhz: Option<u32>,
    pub memory_used_mb: Option<u64>,
    pub memory_total_mb: Option<u64>,
    pub fan_percent: Option<u32>,
}

impl DeepView for GpuReading {
    type V = GpuReadingModel;

    open spec fn deep_view(&self) -> GpuReadingModel {
        GpuReadingModel {
            utilization: self.utilization,
            temperature_c: self.temperature_c.deep_view(),
            power_w: self.power_w.deep_view(),
            core_mhz: self.core_mhz,
            memory_used_mb: self.memory_used_mb,
            memory_total_mb: self.memory_total_mb,
            fan_percent: self.fan_percent,
        }
    }
}

/// A reading that says nothing.
pub open spec fn no_reading() -> GpuReadingModel {
    GpuReadingModel {
        utilization: None,
        temperature_c: None,
        power_w: None,
        core_mhz: None,
        memory_used_mb: None,
        memory_total_mb: None,
        fan_percent: None,
    }
}

impl Default for GpuReading {
    fn default() -> (r: GpuReading)
        ensures
            r.deep_view() == no_reading(),
    {
        GpuReading {
            utilization: None,
            temperature_c: None,
            power_w: None,
            core_mhz: None,
            memory_used_mb: None,
            memory_total_mb: None,
            fan_percent: None,
        }
    }
}

impl GpuReading {
    pub fn is_empty(&self) -> (r: bool)
        ensures
            r == (self.deep_view() == no_reading()),
    {
        self.utilization.is_none() && self.temperature_c.is_none() && self.power_w.is_none()
            && self.core_mhz.is_none() && self.memory_used_mb.is_none()
            && self.memory_total_mb.is_none() && self.fan_percent.is_none()
    }

    /// How much of the memory is in use, and of how much; nothing where either is unknown or there
    /// is none.
    pub fn memory_share(&self) -> (r: Option<(u64, u64)>)
        ensures
            r == (match (self.memory_used_mb, self.memory_total_mb) {
                (Some(used), Some(total)) => if total > 0 {
                    Some((used, total))
                } else {
                    None
                },
                _ => None,
            }),
    {
        match (self.memory_used_mb, self.memory_total_mb) {
            (Some(used), Some(total)) => if total > 0 {
                Some((used, total))
            } else {
                None
            },
            _ => None,
        }
    }
}

/// The texts of the sensor files in a card's `hwmon` directory, where they could be read.
#[derive(Debug)]
pub struct HwmonFiles {
    pub temp1_input: Option<String>,
    pub power1_average: Option<String>,
    pub power1_input: Option<String>,
    pub pwm1: Option<String>,
}

/// The texts of the files beside a card's device, where they could be read.
#[derive(Debug)]
pub struct CardFiles {
    pub gpu_busy_percent: Option<String>,
    pub mem_info_vram_used: Option<String>,
    pub mem_info_vram_total: Option<String>,
    pub pp_dpm_sclk: Option<String>,
    /// Its first `hwmon` directory, where it has one.
    pub hwmon: Option<HwmonFiles>,
}

/// What the sensor files say.
#[verifier::ext_equal]
pub struct HwmonModel {
    pub temp1_input: Option<Seq<char>>,
    pub power1_average: Option<Seq<char>>,
    pub power1_input: Option<Seq<char>>,
    pub pwm1: Option<Seq<char>>,
}

/// What the files beside a card's device say.
#[verifier::ext_equal]
pub struct CardFilesModel {
    pub gpu_busy_percent: Option<Seq<char>>,
    pub mem_info_vram_used: Option<Seq<char>>,
    pub mem_info_vram_total: Option<Seq<char>>,
    pub pp_dpm_sclk: Option<Seq<char>>,
    pub hwmon: Option<HwmonModel>,
}

impl DeepView for HwmonFiles {
    type V = HwmonModel;

    open spec fn deep_view(&self) -> HwmonModel {
        HwmonModel {
            temp1_input: self.temp1_input.deep_view(),
            power1_average: self.power1_average.deep_view(),
            power1_input: self.power1_input.deep_view(),
            pwm1: self.pwm1.deep_view(),
        }
    }
}

impl DeepView for CardFiles {
    type V = CardFilesModel;

    open spec fn deep_view(&self) -> CardFilesModel {
        CardFilesModel {
            gpu_busy_percent: self.gpu_busy_percent.deep_view(),
            mem_info_vram_used: self.mem_info_vram_used.deep_view(),
            mem_info_vram_total: self.mem_info_vram_total.deep_view(),
            pp_dpm_sclk: self.pp_dpm_sclk.deep_view(),
            hwmon: self.hwmon.deep_view(),
        }
    }
}

/// The number in a file whose text is held.
fn number_in_file(contents: &Option<String>) -> (r: Option<u64>)
    ensures
        r == file_number(contents.deep_view()),
{
    match contents {
        Some(t) => read_num(Some(t)),
        None => None,
    }
}

/// The low 32 bits of an optional number.
pub open spec fn low_bits(v: Option<u64>) -> Option<u32> {
    match v {
        Some(n) => Some((n % 0x1_0000_0000) as u32),
        None => None,
    }
}

/// An optional number of bytes in whole mebibytes.
pub open spec fn mebibytes(v: Option<u64>) -> Option<u64> {
    match v {
        Some(n) => Some((n / 1_048_576) as u64),
        None => None,
    }
}

/// An optional number of parts as an amount.
pub open spec fn parts(v: Option<u64>, per_unit: u64) -> Option<MeasureModel> {
    match v {
        Some(count) => Some(MeasureModel::Parts { count, per_unit }),
        None => None,
    }
}

/// What a card's files and sensors say it is doing. The sensors count in millidegrees, microwatts
/// and parts of 255.
pub open spec fn sysfs_reading(f: CardFilesModel) -> GpuReadingModel {
    GpuReadingModel {
        utilization: low_bits(file_number(f.gpu_busy_percent)),
        memory_used_mb: mebibytes(file_number(f.mem_info_vram_used)),
        memory_total_mb: mebibytes(file_number(f.mem_info_vram_total)),
        core_mhz: starred_clock(f.pp_dpm_sclk),
        temperature_c: match f.hwmon {
            Some(h) => parts(file_number(h.temp1_input), 1000),
            None => None,
        },
        power_w: match f.hwmon {
            Some(h) => parts(
                if file_number(h.power1_average) is Some {
                    file_number(h.power1_average)
                } else {
                    file_number(h.power1_input)
                },
                1_000_000,
            ),
            None => None,
        },
        fan_percent: match f.hwmon {
            Some(h) => match file_number(h.pwm1) {
                Some(pwm) => Some(((pwm * 100 / 255) % 0x1_0000_0000) as u32),
                None => None,
            },
            None => None,
        },
    }
}

/// A hundred times the fan's reading fits in 64 bits.
pub open spec fn fan_fits(f: CardFilesModel) -> bool {
    f.hwmon is Some && file_number(f.hwmon->0.pwm1) is Some ==> file_number(f.hwmon->0.pwm1)->0
        * 100 <= u64::MAX
}

/// Whether a card's files can be read: a fan's reading is small enough.
pub fn fan_is_in_range(files: &CardFiles) -> (r: bool)
    ensures
        r == fan_fits(files.deep_view()),
{
    match &files.hwmon {
        Some(hwmon) => match number_in_file(&hwmon.pwm1) {
            Some(pwm) => pwm <= u64::MAX / 100,
            None => true,
        },
        None => true,
    }
}

fn in_parts(v: Option<u64>, per_unit: u64) -> (r: Option<Measure>)
    ensures
        r.deep_view() == parts(v, per_unit),
{
    match v {
        Some(count) => Some(Measure::Parts { count, per_unit }),
        None => None,
    }
}

/// AMD and Intel, out of the files beside the card's device; a card without a node is not read.
pub fn read_sysfs(has_card: bool, files: &CardFiles) -> (r: GpuReading)
    requires
        fan_fits(files.deep_view()),
    ensures
        r.deep_view() == (if has_card {
            sysfs_reading(files.deep_view())
        } else {
            no_reading()
        }),
{
    if !has_card {
        return GpuReading::default();
    }
    let utilization: Option<u32> = match number_in_file(&files.gpu_busy_percent) {
        Some(v) => Some((v % 0x1_0000_0000) as u32),
        None => None,
    };
    let memory_used_mb: Option<u64> = match number_in_file(&files.mem_info_vram_used) {
        Some(b) => Some(b / 1_048_576),
        None => None,
    };
    let memory_total_mb: Option<u64> = match number_in_file(&files.mem_info_vram_total) {
        Some(b) => Some(b / 1_048_576),
        None => None,
    };
    let core_mhz: Option<u32> = match &files.pp_dpm_sclk {
        Some(t) => current_clock_mhz(Some(t)),
        None => None,
    };
    let mut temperature_c: Option<Measure> = None;
    let mut power_w: Option<Measure> = None;
    let mut fan_percent: Option<u32> = None;
    if let Some(hwmon) = &files.hwmon {
        temperature_c = in_parts(number_in_file(&hwmon.temp1_input), 1000);
        let average: Option<u64> = number_in_file(&hwmon.power1_average);
        power_w = in_parts(
            if average.is_some() {
                average
            } else {
                number_in_file(&hwmon.power1_input)
            },
            1_000_000,
        );
        fan_percent = match number_in_file(&hwmon.pwm1) {
            Some(pwm) => Some(((pwm * 100 / 255) % 0x1_0000_0000) as u32),
            None => None,
        };
    }
    GpuReading {
        utilization,
        temperature_c,
        power_w,
        core_mhz,
        memory_used_mb,
        memory_total_mb,
        fan_percent,
    }
}

/// A line of `pp_dpm_sclk` is the current clock's.
pub open spec fn is_starred(line: Seq<char>) -> bool {
    "*"@.is_suffix_of(trim_end(line))
}

/// The clock on the starred line of `pp_dpm_sclk`.
pub open spec fn starred_clock(contents: Option<Seq<char>>) -> Option<u32> {
    match contents {
        Some(text) => match first_where(lines(trim(text)), |l: Seq<char>| is_starred(l)) {
            Some(line) => clock_of(line),
            None => None,
        },
        None => None,
    }
}

/// The clock on a line such as `1: 1200Mhz *`: the digits that its second word starts with.
pub open spec fn clock_of(line: Seq<char>) -> Option<u32> {
    if words(line).len() > 1 {
        let value = words(line)[1];
        u32_of(value.take(digit_run(value)))
    } else {
        None
    }
}

/// The current clock, from the text of `pp_dpm_sclk`.
pub fn current_clock_mhz(contents: Option<&str>) -> (r: Option<u32>)
    ensures
        r == starred_clock(contents.deep_view()),
{
    match contents {
        Some(text) => {
            let chars = chars_of(text);
            let all = lines_of(trimmed(&chars));
            let ghost every = texts(all@);
            let ghost p = |l: Seq<char>| is_starred(l);
            let mut i: usize = 0;
            while i < all.len()
                invariant
                    i <= all.len(),
                    every == texts(all@),
                    every == lines(trim(text@)),
                    contents == Some(text),
                    p == (|l: Seq<char>| is_starred(l)),
                    forall|j: int| 0 <= j < i ==> !p(#[trigger] every[j]),
                decreases all.len() - i,
            {
                assert(every[i as int] == all@[i as int]@);
                if ends_with(trimmed_end(all[i]), "*") {
                    proof {
                        lemma_first_is(every, p, i as int);
                    }
                    return read_clock(all[i]);
                }
                i = i + 1;
            }
            proof {
                lemma_first_none(every, p);
            }
            None
        },
        None => None,
    }
}

fn read_clock(line: &[char]) -> (r: Option<u32>)
    ensures
        r == clock_of(line@),
{
    let all = words_of(line);
    if all.len() > 1 {
        let value = all[1];
        assert(texts(all@)[1] == value@);
        let n: usize = run_of_digits(value);
        read_u32(part(value, 0, n))
    } else {
        None
    }
}

/// The clock on a line such as `1: 1200Mhz *`.
pub fn parse_clock_line(line: &str) -> (r: Option<u32>)
    ensures
        r == clock_of(line@),
{
    read_clock(&chars_of(line))
}

/// The first in order of some directory names.
pub fn first_subdirectory(names: Vec<String>) -> (r: Option<String>)
    ensures
        r.deep_view() == (if names@.len() == 0 {
            None
        } else {
            Some(by_rank::<String>(names.deep_view())[0])
        }),
{
    let none: bool = names.len() == 0;
    proof {
        texts_can_be_ranked();
        sorting_orders(
            names.deep_view(),
            |a: Seq<char>, b: Seq<char>| <String as Ranked>::le(a, b),
        );
    }
    let names = sort(names);
    if none {
        None
    } else {
        Some(names[0].clone())
    }
}

/// The fields asked of `nvidia-smi`, in the order they come back.
pub const NVIDIA_FIELDS: &'static str = "utilization.gpu,temperature.gpu,power.draw,clocks.sm,memory.used,memory.total,fan.speed";

/// The arguments that `nvidia-smi` is run with for one card. The card is named by its PCI address,
/// so that a second NVIDIA card is not read as the first.
pub fn nvidia_query(gpu: &Gpu) -> (r: Vec<String>)
    ensures
        r.deep_view() == seq![
            "--query-gpu="@ + NVIDIA_FIELDS@,
            "--format=csv,noheader,nounits"@,
            "--id="@ + gpu.deep_view().address,
        ],
{
    let mut out: Vec<String> = Vec::new();
    out.push(cat2("--query-gpu=", NVIDIA_FIELDS));
    out.push(String::from_str("--format=csv,noheader,nounits"));
    out.push(cat2("--id=", &gpu.address));
    assert(out.deep_view() =~= seq![
        "--query-gpu="@ + NVIDIA_FIELDS@,
        "--format=csv,noheader,nounits"@,
        "--id="@ + gpu.deep_view().address,
    ]);
    out
}

/// A field of `nvidia-smi`'s answer: absent where there is none, or the card does not have it.
pub open spec fn smi_field(line: Seq<char>, index: int) -> Option<Seq<char>> {
    let fields = split(line, ',');
    if 0 <= index < fields.len() {
        let value = trim(fields[index]);
        if value.len() > 0 && !"[N/A"@.is_prefix_of(value) && value != "N/A"@ {
            Some(value)
        } else {
            None
        }
    } else {
        None
    }
}

/// A field as a 32-bit number.
pub open spec fn field_u32(f: Option<Seq<char>>) -> Option<u32> {
    match f {
        Some(v) => u32_of(v),
        None => None,
    }
}

/// A field as a 64-bit number.
pub open spec fn field_u64(f: Option<Seq<char>>) -> Option<u64> {
    match f {
        Some(v) => u64_of(v),
        None => None,
    }
}

/// A field as a measured amount, where it is a number.
pub open spec fn field_measure(f: Option<Seq<char>>) -> Option<MeasureModel> {
    match f {
        Some(v) => if is_real(v) {
            Some(MeasureModel::Written(v))
        } else {
            None
        },
        None => None,
    }
}

/// What `nvidia-smi`'s answer says a card is doing: its first line that is not blank.
pub open spec fn smi_reading(stdout: Seq<char>) -> GpuReadingModel {
    match first_where(lines(stdout), |l: Seq<char>| trim(l).len() > 0) {
        Some(line) => GpuReadingModel {
            utilization: field_u32(smi_field(line, 0)),
            temperature_c: field_measure(smi_field(line, 1)),
            power_w: field_measure(smi_field(line, 2)),
            core_mhz: field_u32(smi_field(line, 3)),
            memory_used_mb: field_u64(smi_field(line, 4)),
            memory_total_mb: field_u64(smi_field(line, 5)),
            fan_percent: field_u32(smi_field(line, 6)),
        },
        None => no_reading(),
    }
}

fn field_of<'a>(fields: &Vec<&'a [char]>, index: usize, line: &[char]) -> (r: Option<&'a [char]>)
    requires
        texts(fields@) == split(line@, ','),
    ensures
        r is Some <==> smi_field(line@, index as int) is Some,
        r is Some ==> r->0@ == smi_field(line@, index as int)->0,
{
    if index >= fields.len() {
        return None;
    }
    assert(texts(fields@)[index as int] == fields@[index as int]@);
    let value = trimmed(fields[index]);
    if value.len() > 0 && !starts_with(value, "[N/A") && !reads(value, "N/A") {
        Some(value)
    } else {
        None
    }
}

fn as_u32(f: Option<&[char]>) -> (r: Option<u32>)
    ensures
        f is Some ==> r == u32_of(f->0@),
        f is None ==> r is None,
{
    match f {
        Some(v) => read_u32(v),
        None => None,
    }
}

fn as_u64(f: Option<&[char]>) -> (r: Option<u64>)
    ensures
        f is Some ==> r == u64_of(f->0@),
        f is None ==> r is None,
{
    match f {
        Some(v) => read_u64(v),
        None => None,
    }
}

fn as_measure(f: Option<&[char]>) -> (r: Option<Measure>)
    ensures
        f is Some ==> r.deep_view() == field_measure(Some(f->0@)),
        f is None ==> r is None,
{
    match f {
        Some(v) => if reads_as_real(v) {
            Some(Measure::Written(string_of(v)))
        } else {
            None
        },
        None => None,
    }
}

/// One line of `nvidia-smi --format=csv,noheader,nounits`.
///
/// A field the card does not have comes back as `[N/A]`, which reads as "no value" and does not
/// discard the rest of the line.
pub fn parse_nvidia_csv(stdout: &str) -> (r: GpuReading)
    ensures
        r.deep_view() == smi_reading(stdout@),
{
    let chars = chars_of(stdout);
    let all = lines_of(&chars);
    let ghost every = texts(all@);
    let ghost p = |l: Seq<char>| trim(l).len() > 0;
    let mut i: usize = 0;
    while i < all.len()
        invariant
            i <= all.len(),
            every == texts(all@),
            every == lines(stdout@),
            p == (|l: Seq<char>| trim(l).len() > 0),
            forall|j: int| 0 <= j < i ==> !p(#[trigger] every[j]),
        decreases all.len() - i,
    {
        let line = all[i];
        assert(every[i as int] == line@);
        if trimmed(line).len() > 0 {
            proof {
                lemma_first_is(every, p, i as int);
            }
            let fields = pieces(line, ',');
            return GpuReading {
                utilization: as_u32(field_of(&fields, 0, line)),
                temperature_c: as_measure(field_of(&fields, 1, line)),
                power_w: as_measure(field_of(&fields, 2, line)),
                core_mhz: as_u32(field_of(&fields, 3, line)),
                memory_used_mb: as_u64(field_of(&fields, 4, line)),
                memory_total_mb: as_u64(field_of(&fields, 5, line)),
                fan_percent: as_u32(field_of(&fields, 6, line)),
            };
        }
        i = i + 1;
    }
    proof {
        lemma_first_none(every, p);
    }
    GpuReading::default()
}

/// What a card is doing: NVIDIA's by the answer of `nvidia-smi`, where it ran and succeeded, and
/// every other by its files.
pub fn read_gpu(gpu: &Gpu, smi: Option<&str>, files: &CardFiles) -> (r: GpuReading)
    requires
        fan_fits(files.deep_view()),
    ensures
        r.deep_view() == (if gpu.vendor == Vendor::Nvidia {
            match smi.deep_view() {
                Some(out) => smi_reading(out),
                None => no_reading(),
            }
        } else if gpu.card is Some {
            sysfs_reading(files.deep_view())
        } else {
            no_reading()
        }),
{
    match gpu.vendor {
        Vendor::Nvidia => match smi {
            Some(out) => parse_nvidia_csv(out),
            None => GpuReading::default(),
        },
        _ => read_sysfs(gpu.card.is_some(), files),
    }
}

// ---------------------------------------------------------------------------
// CPU
// ---------------------------------------------------------------------------

#[derive(Debug, Clone, PartialEq, Eq)]
pub struct CpuReading {
    /// The busy jiffies and all jiffies since the previous reading.
    pub utilization: Option<(u64, u64)>,
    pub governor: Option<String>,
    pub temperature_c: Option<Measure>,
}

/// What the CPU was read to be doing.
#[verifier::ext_equal]
pub struct CpuReadingModel {
    pub utilization: Option<(u64, u64)>,
    pub governor: Option<Seq<char>>,
    pub temperature_c: Option<MeasureModel>,
}

impl DeepView for CpuReading {
    type V = CpuReadingModel;

    open spec fn deep_view(&self) -> CpuReadingModel {
        CpuReadingModel {
            utilization: self.utilization,
            governor: self.governor.deep_view(),
            temperature_c: self.temperature_c.deep_view(),
        }
    }
}

impl Default for CpuReading {
    fn default() -> (r: CpuReading)
        ensures
            r.deep_view() == (CpuReadingModel {
                utilization: None,
                governor: None,
                temperature_c: None,
            }),
    {
        CpuReading { utilization: None, governor: None, temperature_c: None }
    }
}

/// `/proc/stat`'s first line is cumulative jiffies since boot, so a percentage needs two readings.
/// The previous totals are kept by the caller and handed back in.
#[derive(Debug, Clone, Copy, PartialEq, Eq, Structural)]
pub struct CpuTotals {
    pub busy: u64,
    pub total: u64,
}

impl Default for CpuTotals {
    fn default() -> (r: CpuTotals)
        ensures
            r == (CpuTotals { busy: 0, total: 0 }),
    {
        CpuTotals { busy: 0, total: 0 }
    }
}

/// The sum of some numbers.
pub open spec fn sum(values: Seq<u64>) -> int
    decreases values.len(),
{
    if values.len() == 0 {
        0
    } else {
        sum(values.drop_last()) + values.last()
    }
}

proof fn lemma_sum(values: Seq<u64>, n: int)
    requires
        0 <= n <= values.len(),
    ensures
        0 <= sum(values.take(n)) <= sum(values),
    decreases values.len(),
{
    if values.len() == 0 {
        assert(values.take(n) =~= values);
    } else if n < values.len() {
        lemma_sum(values.drop_last(), n);
        assert(values.drop_last().take(n) =~= values.take(n));
    } else {
        assert(values.take(n) =~= values);
        lemma_sum(values.drop_last(), 0);
        assert(values.drop_last().take(0) =~= Seq::empty());
    }
}

/// The numbers on the first line of `/proc/stat`.
pub open spec fn stat_values(stat: Seq<char>) -> Option<Seq<u64>> {
    let all = lines(trim(stat));
    if all.len() == 0 {
        None
    } else {
        match strip_prefix(all[0], "cpu "@) {
            Some(rest) => {
                let values = words(rest).filter_map(|w: Seq<char>| u64_of(w));
                if values.len() < 4 {
                    None
                } else {
                    Some(values)
                }
            },
            None => None,
        }
    }
}

/// The totals of some jiffies: the fourth and fifth numbers are idle, everything else is work.
pub open spec fn totals_of(values: Seq<u64>) -> CpuTotals {
    let total = sum(values);
    let idle = values[3] + if values.len() > 4 {
        values[4] as int
    } else {
        0
    };
    CpuTotals {
        busy: (if total > idle {
            total - idle
        } else {
            0
        }) as u64,
        total: total as u64,
    }
}

/// The jiffies of `/proc/stat` add up to a number of 64 bits.
pub open spec fn stat_fits(stat: Option<Seq<char>>) -> bool {
    stat is Some && stat_values(stat->0) is Some ==> sum(stat_values(stat->0)->0) <= u64::MAX
}

fn read_values(rest: &[char]) -> (r: Vec<u64>)
    ensures
        r@ == words(rest@).filter_map(|w: Seq<char>| u64_of(w)),
{
    let all = words_of(rest);
    let ghost every = texts(all@);
    let ghost f = |w: Seq<char>| u64_of(w);
    let mut out: Vec<u64> = Vec::new();
    let mut i: usize = 0;
    while i < all.len()
        invariant
            i <= all.len(),
            every == texts(all@),
            f == (|w: Seq<char>| u64_of(w)),
            out@ == every.take(i as int).filter_map(f),
        decreases all.len() - i,
    {
        proof {
            lemma_filter_map_step(every, i as int, f);
            assert(every[i as int] == all@[i as int]@);
        }
        if let Some(v) = read_u64(all[i]) {
            out.push(v);
        }
        i = i + 1;
    }
    assert(every.take(i as int) =~= every);
    out
}

fn numbers_of(stat: &str) -> (r: Option<Vec<u64>>)
    ensures
        r is Some <==> stat_values(stat@) is Some,
        r is Some ==> r->0@ == stat_values(stat@)->0,
{
    let chars = chars_of(stat);
    let all = lines_of(trimmed(&chars));
    if all.len() == 0 {
        return None;
    }
    assert(texts(all@)[0] == all@[0]@);
    match after_prefix(all[0], &chars_of("cpu ")) {
        Some(rest) => {
            let values = read_values(rest);
            if values.len() < 4 {
                None
            } else {
                Some(values)
            }
        },
        None => None,
    }
}

/// Whether the jiffies of `/proc/stat` add up to a number of 64 bits.
pub fn stat_is_in_range(stat: Option<&str>) -> (r: bool)
    ensures
        r == stat_fits(stat.deep_view()),
{
    match stat {
        Some(text) => match numbers_of(text) {
            Some(values) => {
                let mut total: u64 = 0;
                let mut i: usize = 0;
                while i < values.len()
                    invariant
                        i <= values.len(),
                        total == sum(values@.take(i as int)),
                        stat == Some(text),
                        stat_values(text@) == Some(values@),
                    decreases values.len() - i,
                {
                    assert(values@.take(i + 1).drop_last() =~= values@.take(i as int));
                    proof {
                        lemma_sum(values@, i + 1);
                    }
                    match total.checked_add(values[i]) {
                        Some(t) => {
                            total = t;
                        },
                        None => {
                            return false;
                        },
                    }
                    i = i + 1;
                }
                assert(values@.take(i as int) =~= values@);
                true
            },
            None => true,
        },
        None => true,
    }
}

/// The totals in the text of `/proc/stat`.
pub fn cpu_totals(stat: Option<&str>) -> (r: Option<CpuTotals>)
    requires
        stat_fits(stat.deep_view()),
    ensures
        r == (match stat.deep_view() {
            Some(text) => match stat_values(text) {
                Some(values) => Some(totals_of(values)),
                None => None,
            },
            None => None,
        }),
{
    match stat {
        Some(text) => match numbers_of(text) {
            Some(values) => {
                let mut total: u64 = 0;
                let mut i: usize = 0;
                while i < values.len()
                    invariant
                        i <= values.len(),
                        total == sum(values@.take(i as int)),
                        sum(values@) <= u64::MAX,
                    decreases values.len() - i,
                {
                    assert(values@.take(i + 1).drop_last() =~= values@.take(i as int));
                    proof {
                        lemma_sum(values@, i + 1);
                    }
                    total = total + values[i];
                    i = i + 1;
                }
                assert(values@.take(i as int) =~= values@);
                proof {
                    lemma_idle(values@);
                }
                let fifth: u64 = if values.len() > 4 {
                    values[4]
                } else {
                    0
                };
                let idle: u64 = values[3] + fifth;
                Some(CpuTotals { busy: total.saturating_sub(idle), total })
            },
            None => None,
        },
        None => None,
    }
}

proof fn lemma_idle(values: Seq<u64>)
    requires
        values.len() >= 4,
    ensures
        values[3] + (if values.len() > 4 {
            values[4] as int
        } else {
            0
        }) <= sum(values),
{
    let n = if values.len() > 4 {
        5int
    } else {
        4
    };
    let head = values.take(n);
    lemma_sum(values, n);
    if n == 5 {
        assert(head.drop_last() =~= values.take(4));
        assert(values.take(4).drop_last() =~= values.take(3));
        lemma_sum(values, 3);
        assert(sum(head) == sum(values.take(4)) + values[4]);
        assert(sum(values.take(4)) == sum(values.take(3)) + values[3]);
    } else {
        assert(head.drop_last() =~= values.take(3));
        lemma_sum(values, 3);
        assert(sum(head) == sum(values.take(3)) + values[3]);
    }
}

/// What the CPU did between two readings: busy jiffies and all jiffies. Nothing where no time has
/// passed, or a counter went backwards.
pub open spec fn share_of(previous: CpuTotals, now: CpuTotals) -> Option<(u64, u64)> {
    if now.total > previous.total && now.busy >= previous.busy {
        Some(((now.busy - previous.busy) as u64, (now.total - previous.total) as u64))
    } else {
        None
    }
}

/// What the CPU did between two readings.
pub fn cpu_share(previous: CpuTotals, now: CpuTotals) -> (r: Option<(u64, u64)>)
    ensures
        r == share_of(previous, now),
{
    if now.total < previous.total || now.busy < previous.busy {
        return None;
    }
    let total: u64 = now.total - previous.total;
    let busy: u64 = now.busy - previous.busy;
    if total > 0 {
        Some((busy, total))
    } else {
        None
    }
}

/// A temperature sensor: its path, and the texts of its files where they could be read.
#[derive(Debug)]
pub struct Sensor {
    pub path: String,
    pub name: Option<String>,
    pub temp1_input: Option<String>,
}

/// What is known of a temperature sensor.
#[verifier::ext_equal]
pub struct SensorModel {
    pub path: Seq<char>,
    pub name: Option<Seq<char>>,
    pub temp1_input: Option<Seq<char>>,
}

impl DeepView for Sensor {
    type V = SensorModel;

    open spec fn deep_view(&self) -> SensorModel {
        SensorModel {
            path: self.path@,
            name: self.name.deep_view(),
            temp1_input: self.temp1_input.deep_view(),
        }
    }
}

impl Ranked for Sensor {
    open spec fn le(a: SensorModel, b: SensorModel) -> bool {
        text_le(a.path, b.path)
    }

    fn at_most(&self, other: &Sensor) -> (r: bool) {
        no_later(&self.path, &other.path)
    }
}

/// A sensor claims to be the CPU's, and has a temperature.
pub open spec fn is_cpu_sensor(s: SensorModel) -> bool {
    &&& s.name is Some
    &&& ({
        let name = trim(s.name->0);
        name == "k10temp"@ || name == "coretemp"@ || name == "zenpower"@ || name == "cpu_thermal"@
    })
    &&& file_number(s.temp1_input) is Some
}

/// The package temperature in millidegrees, from the first sensor that claims to be the CPU's.
pub open spec fn cpu_millidegrees(sensors: Seq<SensorModel>) -> Option<u64> {
    match first_where(by_rank::<Sensor>(sensors), |s: SensorModel| is_cpu_sensor(s)) {
        Some(s) => file_number(s.temp1_input),
        None => None,
    }
}

/// The package temperature in millidegrees.
pub fn cpu_temperature(sensors: Vec<Sensor>) -> (r: Option<u64>)
    ensures
        r == cpu_millidegrees(sensors.deep_view()),
{
    let ghost given = sensors.deep_view();
    let ordered = sort(sensors);
    let ghost every = ordered.deep_view();
    let ghost p = |s: SensorModel| is_cpu_sensor(s);
    let mut i: usize = 0;
    while i < ordered.len()
        invariant
            i <= ordered.len(),
            every == ordered.deep_view(),
            every == by_rank::<Sensor>(given),
            given == sensors.deep_view(),
            p == (|s: SensorModel| is_cpu_sensor(s)),
            forall|j: int| 0 <= j < i ==> !p(#[trigger] every[j]),
        decreases ordered.len() - i,
    {
        let s = &ordered[i];
        assert(every[i as int] == s.deep_view());
        let cpu: bool = match &s.name {
            Some(t) => {
                let chars = chars_of(t);
                let name = trimmed(&chars);
                reads(name, "k10temp") || reads(name, "coretemp") || reads(name, "zenpower")
                    || reads(name, "cpu_thermal")
            },
            None => false,
        };
        let milli: Option<u64> = number_in_file(&s.temp1_input);
        if cpu && milli.is_some() {
            proof {
                lemma_first_is(every, p, i as int);
            }
            return milli;
        }
        i = i + 1;
    }
    proof {
        lemma_first_none(every, p);
    }
    None
}

/// What the CPU is doing, and the totals to compare the next reading with.
pub fn read_cpu(
    previous: CpuTotals,
    stat: Option<&str>,
    governor: Option<&str>,
    sensors: Vec<Sensor>,
) -> (r: (CpuReading, CpuTotals))
    requires
        stat_fits(stat.deep_view()),
    ensures
        r.1 == (match stat.deep_view() {
            Some(text) => match stat_values(text) {
                Some(values) => totals_of(values),
                None => CpuTotals { busy: 0, total: 0 },
            },
            None => CpuTotals { busy: 0, total: 0 },
        }),
        r.0.deep_view() == (CpuReadingModel {
            utilization: share_of(previous, r.1),
            governor: match governor.deep_view() {
                Some(t) => Some(trim(t)),
                None => None,
            },
            temperature_c: parts(cpu_millidegrees(sensors.deep_view()), 1000),
        }),
{
    let totals = match cpu_totals(stat) {
        Some(t) => t,
        None => CpuTotals::default(),
    };
    let reading = CpuReading {
        utilization: cpu_share(previous, totals),
        governor: read_text(governor),
        temperature_c: in_parts(cpu_temperature(sensors), 1000),
    };
    (reading, totals)
}

// ---------------------------------------------------------------------------
// Memory and storage
// ---------------------------------------------------------------------------

#[derive(Debug, Clone, Copy, PartialEq, Eq, Structural)]
pub struct Usage {
    pub used: u64,
    pub total: u64,
}

impl Default for Usage {
    fn default() -> (r: Usage)
        ensures
            r == (Usage { used: 0, total: 0 }),
    {
        Usage { used: 0, total: 0 }
    }
}

impl Usage {
    pub fn is_known(self) -> (r: bool)
        ensures
            r == (self.total > 0),
    {
        self.total > 0
    }
}

/// A line of `/proc/meminfo` is the one of a field.
pub open spec fn is_field_line(line: Seq<char>, name: Seq<char>) -> bool {
    name.is_prefix_of(line) && line.len() > name.len() && line[name.len() as int] == ':'
}

/// The number of kibibytes that `/proc/meminfo` gives for a field.
pub open spec fn meminfo_kb(text: Seq<char>, name: Seq<char>) -> Option<u64> {
    match first_where(lines(text), |l: Seq<char>| is_field_line(l, name)) {
        Some(line) => if words(line).len() > 1 {
            u64_of(words(line)[1])
        } else {
            None
        },
        None => None,
    }
}

/// The number of bytes that `/proc/meminfo` gives for a field.
pub open spec fn meminfo_bytes(text: Seq<char>, name: Seq<char>) -> Option<int> {
    match meminfo_kb(text, name) {
        Some(kb) => Some(kb * 1024),
        None => None,
    }
}

/// An optional number, or nothing at all.
pub open spec fn or_zero(v: Option<int>) -> int {
    match v {
        Some(n) => n,
        None => 0,
    }
}

/// The memory that a new program could get: the kernel's own estimate, or on a kernel too old for
/// it the crude sum of what is free, cached and buffered.
pub open spec fn available_bytes(text: Seq<char>) -> int {
    match meminfo_bytes(text, "MemAvailable"@) {
        Some(v) => v,
        None => match meminfo_bytes(text, "MemFree"@) {
            Some(free) => free + or_zero(meminfo_bytes(text, "Cached"@)) + or_zero(
                meminfo_bytes(text, "Buffers"@),
            ),
            None => 0,
        },
    }
}

/// The memory in use: all of it but what a new program could get.
pub open spec fn memory_usage(text: Seq<char>) -> Usage {
    match meminfo_bytes(text, "MemTotal"@) {
        Some(total) => Usage {
            used: (if available_bytes(text) < total {
                total - available_bytes(text)
            } else {
                0
            }) as u64,
            total: total as u64,
        },
        None => Usage { used: 0, total: 0 },
    }
}

/// The numbers of bytes that are worked with fit in 64 bits.
pub open spec fn meminfo_fits(text: Seq<char>) -> bool {
    match meminfo_bytes(text, "MemTotal"@) {
        Some(total) => total <= u64::MAX && available_bytes(text) <= u64::MAX,
        None => true,
    }
}

fn find_kb(text: &[char], name: &str) -> (r: Option<u64>)
    ensures
        r == meminfo_kb(text@, name@),
{
    let prefix = chars_of(name);
    let all = lines_of(text);
    let ghost every = texts(all@);
    let ghost p = |l: Seq<char>| is_field_line(l, name@);
    let mut i: usize = 0;
    while i < all.len()
        invariant
            i <= all.len(),
            prefix@ == name@,
            every == texts(all@),
            every == lines(text@),
            p == (|l: Seq<char>| is_field_line(l, name@)),
            forall|j: int| 0 <= j < i ==> !p(#[trigger] every[j]),
        decreases all.len() - i,
    {
        let line = all[i];
        assert(every[i as int] == line@);
        let matches: bool = match after_prefix(line, &prefix) {
            Some(rest) => rest.len() > 0 && rest[0] == ':',
            None => false,
        };
        if matches {
            proof {
                lemma_first_is(every, p, i as int);
            }
            let all_words = words_of(line);
            if all_words.len() > 1 {
                assert(texts(all_words@)[1] == all_words@[1]@);
                return read_u64(all_words[1]);
            }
            return None;
        }
        i = i + 1;
    }
    proof {
        lemma_first_none(every, p);
    }
    None
}

fn bytes_of(kb: Option<u64>) -> (r: Option<u128>)
    ensures
        r is Some <==> kb is Some,
        r is Some ==> r->0 == kb->0 * 1024,
{
    match kb {
        Some(v) => Some((v as u128) * 1024),
        None => None,
    }
}

fn total_and_available(text: &[char]) -> (r: Option<(u128, u128)>)
    ensures
        r is Some <==> meminfo_bytes(text@, "MemTotal"@) is Some,
        r is Some ==> (r->0).0 == meminfo_bytes(text@, "MemTotal"@)->0 && (r->0).1
            == available_bytes(text@),
{
    let total: u128 = match bytes_of(find_kb(text, "MemTotal")) {
        Some(v) => v,
        None => {
            return None;
        },
    };
    let available: u128 = match bytes_of(find_kb(text, "MemAvailable")) {
        Some(v) => v,
        None => match bytes_of(find_kb(text, "MemFree")) {
            Some(free) => {
                let cached: u128 = match bytes_of(find_kb(text, "Cached")) {
                    Some(v) => v,
                    None => 0,
                };
                let buffers: u128 = match bytes_of(find_kb(text, "Buffers")) {
                    Some(v) => v,
                    None => 0,
                };
                free + cached + buffers
            },
            None => 0,
        },
    };
    Some((total, available))
}

/// Whether the numbers of bytes in the text of `/proc/meminfo` fit in 64 bits.
pub fn meminfo_is_in_range(text: &str) -> (r: bool)
    ensures
        r == meminfo_fits(text@),
{
    match total_and_available(&chars_of(text)) {
        Some((total, available)) => total <= 0xffff_ffff_ffff_ffff && available
            <= 0xffff_ffff_ffff_ffff,
        None => true,
    }
}

/// The memory in use, from the text of `/proc/meminfo`.
pub fn parse_meminfo(text: &str) -> (r: Usage)
    requires
        meminfo_fits(text@),
    ensures
        r == memory_usage(text@),
{
    match total_and_available(&chars_of(text)) {
        Some((total, available)) => Usage {
            used: (if available < total {
                total - available
            } else {
                0
            }) as u64,
            total: total as u64,
        },
        None => Usage::default(),
    }
}

/// System memory in use, from the text of `/proc/meminfo` where it could be read.
///
/// All memory but what is available, not but what is free: the kernel keeps every page it can as
/// cache, so a gauge built on `MemFree` sits at 99% saying nothing.
pub fn read_memory(meminfo: Option<&str>) -> (r: Usage)
    requires
        meminfo is Some ==> meminfo_fits(trim(meminfo->0@)),
    ensures
        r == (match meminfo.deep_view() {
            Some(text) => memory_usage(trim(text)),
            None => Usage { used: 0, total: 0 },
        }),
{
    match meminfo {
        Some(text) => parse_meminfo(&string_of(trimmed(&chars_of(text)))),
        None => Usage::default(),
    }
}

/// A product held at the largest 64-bit number where it would be larger.
pub open spec fn capped_product(a: u64, b: u64) -> u64 {
    if a * b > u64::MAX {
        u64::MAX
    } else {
        (a * b) as u64
    }
}

fn capped(a: u64, b: u64) -> (r: u64)
    ensures
        r == capped_product(a, b),
{
    proof {
        assert(a * b <= 0xffff_ffff_ffff_ffff * 0xffff_ffff_ffff_ffff) by (nonlinear_arith)
            requires
                0 <= a <= 0xffff_ffff_ffff_ffff,
                0 <= b <= 0xffff_ffff_ffff_ffff,
        ;
    }
    let product: u128 = (a as u128) * (b as u128);
    if product > 0xffff_ffff_ffff_ffff {
        0xffff_ffff_ffff_ffff
    } else {
        product as u64
    }
}

/// How full a filesystem is, from its counts of blocks; nothing where they could not be had. The
/// blocks that are reserved do not count as free.
pub fn read_storage(
    known: bool,
    fragment_size: u64,
    block_size: u64,
    blocks: u64,
    blocks_available: u64,
) -> (r: Usage)
    ensures
        r == (if known {
            let unit = if fragment_size > 0 {
                fragment_size
            } else {
                block_size
            };
            let total = capped_product(blocks, unit);
            let free = capped_product(blocks_available, unit);
            Usage {
                used: (if total > free {
                    total - free
                } else {
                    0
                }) as u64,
                total,
            }
        } else {
            Usage { used: 0, total: 0 }
        }),
        r.used <= r.total,
{
    if !known {
        return Usage::default();
    }
    let unit: u64 = if fragment_size > 0 {
        fragment_size
    } else {
        block_size
    };
    let total: u64 = capped(blocks, unit);
    let free: u64 = capped(blocks_available, unit);
    Usage { used: total.saturating_sub(free), total }
}

// ---------------------------------------------------------------------------
// Formatting
// ---------------------------------------------------------------------------

/// A clock as text: gigahertz to two places from 1000 MHz on, as a double gives them.
pub open spec fn clock_text(value: Option<u32>) -> Seq<char> {
    match value {
        Some(v) => if v >= 1000 {
            fixed(nearest(100 * significand(v as int, 1000), lift(v as int, 1000)), 100, 2)
                + " GHz"@
        } else {
            decimal(v as int) + " MHz"@
        },
        None => "—"@,
    }
}

/// A clock with its unit, or an em dash where there is none.
pub fn megahertz(value: Option<u32>) -> (r: String)
    ensures
        r@ == clock_text(value),
{
    match value {
        Some(v) => {
            if v >= 1000 {
                let (m, unit) = quotient_of(v, 1000);
                let parts: u128 = nearest_of(100 * (m as u128), unit);
                proof {
                    lemma_hundredths(v as int);
                }
                cat2(&hundredths_text(parts as u64), " GHz")
            } else {
                cat2(&decimal_of(v as u64), " MHz")
            }
        },
        None => String::from_str("—"),
    }
}

proof fn lemma_hundredths(v: int)
    requires
        0 <= v <= u32::MAX,
    ensures
        0 <= nearest(100 * significand(v, 1000), lift(v, 1000)) <= u64::MAX,
{
    lemma_lift_pos(v, 1000);
    let m = significand(v, 1000);
    let u = lift(v, 1000);
    assert(u >= 1);
    assert(0 <= nearest(v * u, 1000) <= v * u + 1) by {
        assert(v * u >= 0) by (nonlinear_arith)
            requires
                v >= 0,
                u >= 1,
        ;
    }
    assert(0 <= (100 * m) / u <= 100 * (v + 1)) by (nonlinear_arith)
        requires
            0 <= m <= v * u + 1,
            u >= 1,
            v >= 0,
    ;
}

proof fn lemma_lift_pos(n: int, d: int)
    requires
        d > 0,
    ensures
        lift(n, d) >= 1,
    decreases crate::binary::significands() * d - n,
{
    if !(n <= 0 || 2 * n >= crate::binary::significands() * d) {
        lemma_lift_pos(2 * n, d);
    }
}

/// A number of mebibytes in gibibytes to one place, as a double gives it.
pub open spec fn gigabytes(mb: u64) -> Seq<char> {
    fixed(nearest(10 * whole(mb as int), 1024), 10, 1)
}

fn gigabytes_text(mb: u64) -> (r: String)
    ensures
        r@ == gigabytes(mb),
{
    let w: u128 = whole_of(mb);
    let parts: u128 = nearest_of(10 * w, 1024);
    tenths_text(parts as u64)
}

/// Memory in use and in all, as text.
pub open spec fn memory_text(used: Option<u64>, total: Option<u64>) -> Seq<char> {
    match used {
        Some(u) => match total {
            Some(t) => gigabytes(u) + " / "@ + gigabytes(t) + " GB"@,
            None => gigabytes(u) + " GB"@,
        },
        None => "—"@,
    }
}

/// Memory in use and in all, or an em dash where the use is not known.
pub fn memory(used: Option<u64>, total: Option<u64>) -> (r: String)
    ensures
        r@ == memory_text(used, total),
{
    match used {
        Some(u) => match total {
            Some(t) => cat4(&gigabytes_text(u), " / ", &gigabytes_text(t), " GB"),
            None => cat2(&gigabytes_text(u), " GB"),
        },
        None => String::from_str("—"),
    }
}

// ---------------------------------------------------------------------------
// Laws
// ---------------------------------------------------------------------------

/// The memory in use is never more than there is.
pub proof fn memory_in_use_is_at_most_all(text: Seq<char>)
    requires
        meminfo_fits(text),
    ensures
        memory_usage(text).used <= memory_usage(text).total,
{
}

/// Two readings at the same moment give no share, and neither does a counter that went backwards.
pub proof fn no_share_without_progress(a: CpuTotals, b: CpuTotals)
    requires
        b.total <= a.total || b.busy < a.busy,
    ensures
        share_of(a, b) is None,
{
}

/// An unknown reading is written as a dash and never as a number.
pub proof fn unknown_is_a_dash(total: Option<u64>)
    ensures
        clock_text(None) == "—"@,
        memory_text(None, total) == "—"@,
{
}

/// What a card's files say is taken in their units: per cent as they are, bytes in whole mebibytes, the
/// temperature in thousandths of a degree, the power in millionths of a watt, and the fan in parts of
/// 255, of which so many per cent are whole. The averaged power is believed before the momentary one.
pub proof fn files_are_read_in_their_units(f: CardFilesModel, h: HwmonModel, n: u64, m: u64)
    requires
        f.hwmon == Some(h),
    ensures
        file_number(f.gpu_busy_percent) == Some(n) && n <= u32::MAX ==> sysfs_reading(f).utilization
            == Some(n as u32),
        file_number(f.mem_info_vram_used) == Some(n) && 1_048_576 * m <= n < 1_048_576 * (m + 1)
            ==> sysfs_reading(f).memory_used_mb == Some(m),
        file_number(f.mem_info_vram_total) == Some(n) && 1_048_576 * m <= n < 1_048_576 * (m + 1)
            ==> sysfs_reading(f).memory_total_mb == Some(m),
        file_number(h.temp1_input) == Some(n) ==> sysfs_reading(f).temperature_c == Some(
            MeasureModel::Parts { count: n, per_unit: 1000 },
        ),
        file_number(h.power1_average) == Some(n) ==> sysfs_reading(f).power_w == Some(
            MeasureModel::Parts { count: n, per_unit: 1_000_000 },
        ),
        file_number(h.power1_average) is None && file_number(h.power1_input) == Some(n) ==> sysfs_reading(
            f,
        ).power_w == Some(MeasureModel::Parts { count: n, per_unit: 1_000_000 }),
        file_number(h.pwm1) == Some(n) && m <= u32::MAX && 255 * m <= 100 * n < 255 * (m + 1)
            ==> sysfs_reading(f).fan_percent == Some(m as u32),
        sysfs_reading(f).core_mhz == starred_clock(f.pp_dpm_sclk),
{
    if 1_048_576 * m <= n < 1_048_576 * (m + 1) {
        assert(n as int / 1_048_576 == m);
    }
    if 255 * m <= 100 * n < 255 * (m + 1) {
        assert(n * 100 / 255 == m);
    }
}

/// What a card's files do not say is not known, and is not taken for nothing.
pub proof fn what_is_not_said_is_not_known(f: CardFilesModel)
    ensures
        file_number(f.gpu_busy_percent) is None ==> sysfs_reading(f).utilization is None,
        file_number(f.mem_info_vram_used) is None ==> sysfs_reading(f).memory_used_mb is None,
        file_number(f.mem_info_vram_total) is None ==> sysfs_reading(f).memory_total_mb is None,
        f.hwmon is None ==> sysfs_reading(f).temperature_c is None && sysfs_reading(f).power_w is None
            && sysfs_reading(f).fan_percent is None,
        f.hwmon is Some && file_number(f.hwmon->0.temp1_input) is None ==> sysfs_reading(f).temperature_c
            is None,
        f.hwmon is Some && file_number(f.hwmon->0.power1_average) is None && file_number(
            f.hwmon->0.power1_input,
        ) is None ==> sysfs_reading(f).power_w is None,
        f.hwmon is Some && file_number(f.hwmon->0.pwm1) is None ==> sysfs_reading(f).fan_percent is None,
{
}

proof fn lemma_digits_end(digits: Seq<char>, rest: Seq<char>)
    requires
        crate::text::all_digits(digits),
        rest.len() > 0 ==> !crate::text::is_digit(rest[0]),
    ensures
        digit_run(digits + rest) == digits.len(),
    decreases digits.len(),
{
    let s = digits + rest;
    if digits.len() > 0 {
        assert(s[0] == digits[0]);
        assert(crate::text::is_digit(digits[0]));
        assert(s.skip(1) =~= digits.skip(1) + rest);
        assert forall|i: int| 0 <= i < digits.skip(1).len() implies crate::text::is_digit(
            #[trigger] digits.skip(1)[i],
        ) by {
            assert(crate::text::is_digit(digits[i + 1]));
        }
        lemma_digits_end(digits.skip(1), rest);
    } else {
        assert(s =~= rest);
    }
}

/// The clock of a line is the number that its second word starts with, whatever unit follows it.
pub proof fn a_clock_is_the_number_before_its_unit(line: Seq<char>, n: u32, unit: Seq<char>)
    requires
        words(line).len() > 1,
        words(line)[1] == decimal(n as int) + unit,
        unit.len() > 0 ==> !crate::text::is_digit(unit[0]),
    ensures
        clock_of(line) == Some(n),
{
    crate::number::lemma_written(n as int, 10);
    lemma_digits_end(decimal(n as int), unit);
    let value = words(line)[1];
    assert(value.take(decimal(n as int).len() as int) =~= decimal(n as int));
    crate::number::written_reads_back(n as int, 10, u32::MAX as int);
}

/// The current clock is that of the first line that ends in an asterisk.
pub proof fn the_current_clock_is_starred(text: Seq<char>, i: int)
    requires
        0 <= i < lines(trim(text)).len(),
        "*"@.is_suffix_of(trim_end(lines(trim(text))[i])),
        forall|j: int| 0 <= j < i ==> !"*"@.is_suffix_of(trim_end(#[trigger] lines(trim(text))[j])),
    ensures
        starred_clock(Some(text)) == clock_of(lines(trim(text))[i]),
        starred_clock(None) is None,
{
    let p = |l: Seq<char>| is_starred(l);
    lemma_first_is(lines(trim(text)), p, i);
}

/// A field of `nvidia-smi`'s answer says something: it is not empty, and does not say that the card has
/// none.
pub open spec fn says_something(field: Seq<char>) -> bool {
    field.len() > 0 && !"[N/A"@.is_prefix_of(field) && field != "N/A"@
}

/// The fields of a line, set apart by commas, are found by their places, without the white space round
/// them; what says nothing is passed over, and so is a place that is not there.
pub proof fn fields_are_found_by_their_place(line: Seq<char>, i: int)
    ensures
        0 <= i < split(line, ',').len() && says_something(trim(split(line, ',')[i])) ==> smi_field(line, i)
            == Some(trim(split(line, ',')[i])),
        0 <= i < split(line, ',').len() && !says_something(trim(split(line, ',')[i])) ==> smi_field(line, i)
            is None,
        i >= split(line, ',').len() ==> smi_field(line, i) is None,
{
}

/// The answer's fields are what was asked for, in the order it was asked for in: use, temperature, power,
/// clock, memory in use, memory in all, and fan. Each is read as a number of its kind, and one that says
/// nothing leaves the rest as they are.
pub proof fn answers_come_in_the_order_asked(stdout: Seq<char>, i: int, v: Seq<char>)
    requires
        0 <= i < lines(stdout).len(),
        trim(lines(stdout)[i]).len() > 0,
        forall|j: int| 0 <= j < i ==> trim(#[trigger] lines(stdout)[j]).len() == 0,
    ensures
        smi_field(lines(stdout)[i], 0) == Some(v) ==> smi_reading(stdout).utilization == u32_of(v),
        smi_field(lines(stdout)[i], 1) == Some(v) && is_real(v) ==> smi_reading(stdout).temperature_c
            == Some(MeasureModel::Written(v)),
        smi_field(lines(stdout)[i], 2) == Some(v) && is_real(v) ==> smi_reading(stdout).power_w == Some(
            MeasureModel::Written(v),
        ),
        smi_field(lines(stdout)[i], 3) == Some(v) ==> smi_reading(stdout).core_mhz == u32_of(v),
        smi_field(lines(stdout)[i], 4) == Some(v) ==> smi_reading(stdout).memory_used_mb == u64_of(v),
        smi_field(lines(stdout)[i], 5) == Some(v) ==> smi_reading(stdout).memory_total_mb == u64_of(v),
        smi_field(lines(stdout)[i], 6) == Some(v) ==> smi_reading(stdout).fan_percent == u32_of(v),
        smi_field(lines(stdout)[i], 0) is None ==> smi_reading(stdout).utilization is None,
        smi_field(lines(stdout)[i], 1) is None ==> smi_reading(stdout).temperature_c is None,
        smi_field(lines(stdout)[i], 2) is None ==> smi_reading(stdout).power_w is None,
        smi_field(lines(stdout)[i], 3) is None ==> smi_reading(stdout).core_mhz is None,
        smi_field(lines(stdout)[i], 4) is None ==> smi_reading(stdout).memory_used_mb is None,
        smi_field(lines(stdout)[i], 5) is None ==> smi_reading(stdout).memory_total_mb is None,
        smi_field(lines(stdout)[i], 6) is None ==> smi_reading(stdout).fan_percent is None,
        NVIDIA_FIELDS@
            == "utilization.gpu,temperature.gpu,power.draw,clocks.sm,memory.used,memory.total,fan.speed"@,
{
    let p = |l: Seq<char>| trim(l).len() > 0;
    lemma_first_is(lines(stdout), p, i);
}

/// The first line of `/proc/stat` counts the time since boot, and all of its numbers make up the total.
/// The fourth and the fifth are time spent idle; the rest is work.
pub proof fn idle_time_is_no_work(values: Seq<u64>)
    requires
        values.len() > 4,
        sum(values) <= u64::MAX,
    ensures
        totals_of(values).total == sum(values),
        totals_of(values).busy == sum(values) - values[3] - values[4],
{
    lemma_idle(values);
}

/// A reading with four numbers has no fifth to be idle in.
pub proof fn four_numbers_are_enough(values: Seq<u64>)
    requires
        values.len() == 4,
        sum(values) <= u64::MAX,
    ensures
        totals_of(values).total == values[0] + values[1] + values[2] + values[3],
        totals_of(values).busy == values[0] + values[1] + values[2],
{
    reveal_with_fuel(sum, 5);
    assert(values.drop_last().last() == values[2]);
    assert(values.drop_last().drop_last().last() == values[1]);
    assert(values.drop_last().drop_last().drop_last().last() == values[0]);
}

/// A sum is that of every number.
pub proof fn a_sum_counts_every_number(values: Seq<u64>, n: u64)
    ensures
        sum(values.push(n)) == sum(values) + n,
        sum(Seq::empty()) == 0,
{
    assert(values.push(n).drop_last() =~= values);
}

/// The share of the processor that was busy is taken over the time between two readings.
pub proof fn the_share_is_over_the_time_between(before: CpuTotals, busy: u64, total: u64)
    requires
        busy <= total,
        total > 0,
        before.busy + busy <= u64::MAX,
        before.total + total <= u64::MAX,
    ensures
        share_of(
            before,
            CpuTotals { busy: (before.busy + busy) as u64, total: (before.total + total) as u64 },
        ) == Some((busy, total)),
{
}

/// The numbers of `/proc/stat` are those behind `cpu` on its first line, where there are at least four.
pub proof fn the_first_line_counts_all_processors(stat: Seq<char>, rest: Seq<char>, values: Seq<u64>)
    requires
        lines(trim(stat)).len() > 0,
        lines(trim(stat))[0] == "cpu "@ + rest,
        words(rest).len() == values.len(),
        values.len() >= 4,
        forall|i: int| 0 <= i < values.len() ==> words(rest)[i] == decimal(#[trigger] values[i] as int),
    ensures
        stat_values(stat) == Some(values),
{
    let line = lines(trim(stat))[0];
    assert(line.subrange(0, "cpu "@.len() as int) =~= "cpu "@);
    assert(line.skip("cpu "@.len() as int) =~= rest);
    let f = |w: Seq<char>| u64_of(w);
    let all = words(rest);
    assert forall|k: int| 0 <= k < all.len() implies f(#[trigger] all[k]) == Some(values[k]) by {
        assert(all[k] == decimal(values[k] as int));
        crate::number::written_reads_back(values[k] as int, 10, u64::MAX as int);
    }
    crate::lists::lemma_all_picked(all, f);
    assert(all.filter_map(f) =~= values) by {
        assert forall|k: int| 0 <= k < values.len() implies all.filter_map(f)[k] == values[k] by {
            assert(f(all[k]) == Some(all.filter_map(f)[k]));
        }
    }
}

/// The processor's temperature comes from a sensor of one of the four drivers that are for processors,
/// and from no other; of several the first by path that has a temperature.
pub proof fn only_processor_sensors_are_read(s: SensorModel, name: Seq<char>, n: u64)
    requires
        s.name == Some(name),
        file_number(s.temp1_input) == Some(n),
    ensures
        is_cpu_sensor(s) <==> trim(name) == "k10temp"@ || trim(name) == "coretemp"@ || trim(name)
            == "zenpower"@ || trim(name) == "cpu_thermal"@,
        cpu_millidegrees(seq![s]) == (if is_cpu_sensor(s) {
            Some(n)
        } else {
            None
        }),
        cpu_millidegrees(Seq::empty()) is None,
{
    let p = |s: SensorModel| is_cpu_sensor(s);
    lemma_single_sensor(s);
    if is_cpu_sensor(s) {
        lemma_first_is(seq![s], p, 0);
    } else {
        lemma_first_none(seq![s], p);
    }
    lemma_first_none(Seq::<SensorModel>::empty(), p);
}

proof fn lemma_sensors_are_ranked(sensors: Seq<SensorModel>)
    ensures
        by_rank::<Sensor>(sensors).len() == sensors.len(),
        forall|x: SensorModel|
            by_rank::<Sensor>(sensors).contains(x) <==> #[trigger] sensors.contains(x),
        forall|i: int, j: int|
            0 <= i < j < by_rank::<Sensor>(sensors).len() ==> text_le(
                (#[trigger] by_rank::<Sensor>(sensors)[i]).path,
                (#[trigger] by_rank::<Sensor>(sensors)[j]).path,
            ),
{
    let le = |a: SensorModel, b: SensorModel| <Sensor as Ranked>::le(a, b);
    assert forall|a: SensorModel, b: SensorModel| #[trigger] le(a, b) || le(b, a) by {
        crate::order::text_le_total(a.path, b.path);
    }
    assert forall|a: SensorModel, b: SensorModel, c: SensorModel| #[trigger]
        le(a, b) && #[trigger] le(b, c) implies le(a, c) by {
        crate::order::text_le_transitive(a.path, b.path, c.path);
    }
    sorting_orders(sensors, le);
    let out = by_rank::<Sensor>(sensors);
    sensors.to_multiset_ensures();
    out.to_multiset_ensures();
    assert forall|x: SensorModel| out.contains(x) <==> #[trigger] sensors.contains(x) by {
        assert(out.to_multiset().count(x) == sensors.to_multiset().count(x));
    }
    assert forall|i: int, j: int| 0 <= i < j < out.len() implies text_le(
        (#[trigger] out[i]).path,
        (#[trigger] out[j]).path,
    ) by {
        assert(le(out[i], out[j]));
    }
}

proof fn lemma_single_sensor(s: SensorModel)
    ensures
        by_rank::<Sensor>(seq![s]) == seq![s],
        by_rank::<Sensor>(Seq::<SensorModel>::empty()) == Seq::<SensorModel>::empty(),
{
    lemma_sensors_are_ranked(seq![s]);
    lemma_sensors_are_ranked(Seq::<SensorModel>::empty());
    let out = by_rank::<Sensor>(seq![s]);
    assert(seq![s][0] == s);
    assert(seq![s].contains(s));
    assert(out.contains(s));
    assert(out =~= seq![s]);
    assert(by_rank::<Sensor>(Seq::<SensorModel>::empty()) =~= Seq::<SensorModel>::empty());
}

/// The temperature that is read is one of a processor's sensors, and no processor's sensor stands
/// before it; there is none only where there is no such sensor.
pub proof fn the_first_processor_sensor_counts(sensors: Seq<SensorModel>)
    ensures
        match cpu_millidegrees(sensors) {
            Some(n) => exists|k: int|
                0 <= k < sensors.len() && is_cpu_sensor(#[trigger] sensors[k]) && file_number(
                    sensors[k].temp1_input,
                ) == Some(n) && forall|j: int|
                    0 <= j < sensors.len() && is_cpu_sensor(#[trigger] sensors[j]) ==> text_le(
                        sensors[k].path,
                        sensors[j].path,
                    ),
            None => forall|j: int| 0 <= j < sensors.len() ==> !is_cpu_sensor(#[trigger] sensors[j]),
        },
{
    let p = |s: SensorModel| is_cpu_sensor(s);
    let out = by_rank::<Sensor>(sensors);
    lemma_sensors_are_ranked(sensors);
    crate::lists::lemma_first_index(out, p);
    match crate::lists::first_index(out, p) {
        Some(i) => {
            assert(out.contains(out[i]));
            assert(sensors.contains(out[i]));
            let k = choose|k: int| 0 <= k < sensors.len() && sensors[k] == out[i];
            assert forall|j: int| 0 <= j < sensors.len() && is_cpu_sensor(#[trigger] sensors[j]) implies text_le(
                sensors[k].path,
                sensors[j].path,
            ) by {
                assert(sensors.contains(sensors[j]));
                assert(out.contains(sensors[j]));
                let m = choose|m: int| 0 <= m < out.len() && out[m] == sensors[j];
                assert(p(out[m]));
                if m == i {
                    crate::order::text_le_total(sensors[k].path, sensors[j].path);
                } else {
                    assert(i < m);
                }
            }
            assert(is_cpu_sensor(sensors[k]));
        },
        None => {
            assert forall|j: int| 0 <= j < sensors.len() implies !is_cpu_sensor(#[trigger] sensors[j]) by {
                assert(sensors.contains(sensors[j]));
                assert(out.contains(sensors[j]));
                let m = choose|m: int| 0 <= m < out.len() && out[m] == sensors[j];
                assert(!p(out[m]));
            }
        },
    }
}

/// A field of `/proc/meminfo` is the number behind its name and a colon, on the first line that has both.
pub proof fn a_field_of_meminfo_is_behind_its_name(text: Seq<char>, name: Seq<char>, i: int, n: u64)
    requires
        0 <= i < lines(text).len(),
        (name + seq![':']).is_prefix_of(lines(text)[i]),
        forall|j: int| 0 <= j < i ==> !(name + seq![':']).is_prefix_of(#[trigger] lines(text)[j]),
        words(lines(text)[i]).len() > 1,
        words(lines(text)[i])[1] == decimal(n as int),
    ensures
        meminfo_kb(text, name) == Some(n),
{
    let p = |l: Seq<char>| is_field_line(l, name);
    assert forall|j: int| 0 <= j < lines(text).len() implies #[trigger] p(lines(text)[j]) == (name + seq![
        ':',
    ]).is_prefix_of(lines(text)[j]) by {
        let line = lines(text)[j];
        let head = name + seq![':'];
        if is_field_line(line, name) {
            assert(line.subrange(0, name.len() as int) =~= name);
            assert(line.subrange(0, head.len() as int) =~= head) by {
                assert forall|k: int| 0 <= k < head.len() implies line[k] == head[k] by {
                    if k < name.len() {
                        assert(line.subrange(0, name.len() as int)[k] == name[k]);
                    }
                }
            }
        }
        if head.is_prefix_of(line) {
            assert(line.subrange(0, head.len() as int)[name.len() as int] == ':');
            assert(line.subrange(0, name.len() as int) =~= name) by {
                assert forall|k: int| 0 <= k < name.len() implies line[k] == name[k] by {
                    assert(line.subrange(0, head.len() as int)[k] == head[k]);
                }
            }
        }
    }
    assert forall|j: int| 0 <= j < i implies !p(#[trigger] lines(text)[j]) by {
        assert(p(lines(text)[j]) == (name + seq![':']).is_prefix_of(lines(text)[j]));
    }
    assert(p(lines(text)[i]));
    lemma_first_is(lines(text), p, i);
    crate::number::written_reads_back(n as int, 10, u64::MAX as int);
}

/// The memory in use is all of it but what a new program could get, in bytes of which 1024 make one of
/// the kernel's units. A kernel that does not say what that is has it in what is free, cached and
/// buffered.
pub proof fn memory_in_use_is_what_cannot_be_had(
    text: Seq<char>,
    total: u64,
    available: u64,
    cached: u64,
    buffers: u64,
)
    requires
        meminfo_kb(text, "MemTotal"@) == Some(total),
        total * 1024 <= u64::MAX,
    ensures
        memory_usage(text).total == total * 1024,
        meminfo_kb(text, "MemAvailable"@) == Some(available) && available <= total ==> memory_usage(
            text,
        ).used == (total - available) * 1024,
        meminfo_kb(text, "MemAvailable"@) is None && meminfo_kb(text, "MemFree"@) == Some(available)
            && meminfo_kb(text, "Cached"@) == Some(cached) && meminfo_kb(text, "Buffers"@) == Some(buffers)
            && available + cached + buffers <= total ==> memory_usage(text).used == (total - available
            - cached - buffers) * 1024,
{
}

/// Memory of which nothing is known is none in use and none at all.
pub proof fn unknown_memory_is_none(text: Seq<char>)
    requires
        meminfo_kb(text, "MemTotal"@) is None,
    ensures
        memory_usage(text) == (Usage { used: 0, total: 0 }),
{
}

/// A clock below a thousand is said in megahertz as it is, and memory in use is said before memory in all.
pub proof fn readings_are_said_with_their_units(v: u32, used: u64, total: u64)
    ensures
        v < 1000 ==> clock_text(Some(v)) == decimal(v as int) + " MHz"@,
        v >= 1000 ==> " GHz"@.is_suffix_of(clock_text(Some(v))),
        memory_text(Some(used), Some(total)) == gigabytes(used) + " / "@ + gigabytes(total) + " GB"@,
        memory_text(Some(used), None) == gigabytes(used) + " GB"@,
{
    if v >= 1000 {
        let s = clock_text(Some(v));
        let n = s.len() - " GHz"@.len();
        assert(s.subrange(n, s.len() as int) =~= " GHz"@);
    }
}

/// Memory is said in gibibytes of 1024 mebibytes, to the tenths that are nearest to it.
pub proof fn memory_is_said_to_the_nearest_tenth(mb: u64, tenths: int)
    requires
        mb < 0x20_0000_0000_0000,
        2048 * tenths < 20 * mb + 1024,
        20 * mb < 2048 * tenths + 1024,
    ensures
        gigabytes(mb) == decimal(tenths / 10) + "."@ + crate::number::zero_padded(
            decimal(tenths % 10),
            1,
        ),
{
    crate::binary::small_numbers_are_exact(mb as int);
    crate::binary::rounding_goes_to_the_nearest(10 * mb as int, 1024);
    let k = nearest(10 * mb as int, 1024);
    assert(2 * k * 1024 == 2048 * k);
    assert(k == tenths);
}

} // verus!
