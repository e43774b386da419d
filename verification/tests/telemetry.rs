use raven_gaming::gpu::{DriverKind, Gpu, Vendor};
use raven_gaming::telemetry::{
    cpu_share, cpu_temperature, cpu_totals, current_clock_mhz, fan_is_in_range,
    first_subdirectory, megahertz, meminfo_is_in_range, memory, nvidia_query, parse_clock_line,
    parse_meminfo, parse_nvidia_csv, read_cpu, read_gpu, read_memory, read_storage, read_sysfs,
    stat_is_in_range, CardFiles, CpuReading, CpuTotals, GpuReading, HwmonFiles, Measure, Sensor,
    Usage, NVIDIA_FIELDS,
};

fn fraction(usage: Usage) -> f64 {
    if usage.total == 0 {
        0.0
    } else {
        (usage.used as f64 / usage.total as f64).clamp(0.0, 1.0)
    }
}

fn value(measure: &Option<Measure>) -> Option<f64> {
    match measure {
        Some(Measure::Parts { count, per_unit }) => Some(*count as f64 / *per_unit as f64),
        Some(Measure::Written(text)) => text.parse().ok(),
        None => None,
    }
}

fn cpu_percent(before: CpuTotals, after: CpuTotals) -> Option<f64> {
    cpu_share(before, after).map(|(busy, total)| busy as f64 / total as f64 * 100.0)
}

fn memory_percent(reading: &GpuReading) -> Option<f64> {
    reading.memory_share().map(|(used, total)| used as f64 / total as f64 * 100.0)
}

fn amd() -> Gpu {
    Gpu {
        address: "0000:05:00.0".into(),
        vendor: Vendor::Amd,
        vendor_id: 0x1002,
        device_id: 0x15d8,
        model: "Vega".into(),
        driver: DriverKind::Amdgpu,
        module: None,
        card: Some("card0".into()),
        render_node: None,
        boot_vga: true,
        drives_internal_panel: false,
        integrated: false,
    }
}

fn files() -> CardFiles {
    CardFiles {
        gpu_busy_percent: Some("37\n".into()),
        mem_info_vram_used: Some("1073741824\n".into()),
        mem_info_vram_total: Some("2147483648\n".into()),
        pp_dpm_sclk: Some("0: 400Mhz\n1: 1200Mhz *\n".into()),
        hwmon: Some(HwmonFiles {
            temp1_input: Some("59500\n".into()),
            power1_average: None,
            power1_input: Some("12345678\n".into()),
            pwm1: Some("128\n".into()),
        }),
    }
}

#[test]
fn memory_in_use_is_what_a_program_cannot_have() {
    let meminfo = "\
MemTotal:       24410940 kB
MemFree:          812344 kB
MemAvailable:   20121152 kB
Buffers:          104200 kB
Cached:         18900000 kB
";
    let usage = parse_meminfo(meminfo);
    assert_eq!(usage.total, 24_410_940 * 1024);
    // Not MemFree: the cache is available, and a gauge built on MemFree would read 97% on an idle
    // machine.
    assert_eq!(usage.used, (24_410_940 - 20_121_152) * 1024);
    assert!(fraction(usage) > 0.15 && fraction(usage) < 0.20);
}

#[test]
fn a_kernel_without_memavailable_still_reports() {
    let old = "MemTotal: 1000 kB\nMemFree: 200 kB\nBuffers: 100 kB\nCached: 300 kB\n";
    let usage = parse_meminfo(old);
    assert_eq!(usage.used, 400 * 1024);
}

#[test]
fn a_prefix_is_not_a_meminfo_field() {
    // "MemTotal" must not match "MemTotalFoo", and "SwapFree" must not be read as "MemFree".
    let text = "MemTotalish: 5 kB\nMemTotal: 100 kB\nMemAvailable: 40 kB\n";
    assert_eq!(parse_meminfo(text).total, 100 * 1024);
}

#[test]
fn nonsense_meminfo_reports_nothing_rather_than_guessing() {
    assert!(!parse_meminfo("").is_known());
    assert!(!parse_meminfo("garbage\n").is_known());
    assert_eq!(fraction(Usage::default()), 0.0);
}

#[test]
fn storage_is_read_for_a_real_directory() {
    let root = parse_meminfo("");
    assert!(!root.is_known());
    let usage = read_storage(true, 4096, 4096, 1_000, 400);
    assert!(usage.is_known(), "the root filesystem should have a size");
    assert!(usage.used <= usage.total);
    assert_eq!(usage, Usage { used: 600 * 4096, total: 1_000 * 4096 });
    // A path that does not exist reports nothing, rather than zero bytes free.
    assert!(!read_storage(false, 4096, 4096, 1_000, 400).is_known());
}

#[test]
fn nvidia_csv_is_read_field_by_field() {
    let r = parse_nvidia_csv("0, 59, 5.90, 300, 4, 6144, [N/A]\n");
    assert_eq!(r.utilization, Some(0));
    assert_eq!(value(&r.temperature_c), Some(59.0));
    assert_eq!(value(&r.power_w), Some(5.90));
    assert_eq!(r.core_mhz, Some(300));
    assert_eq!(r.memory_used_mb, Some(4));
    assert_eq!(r.memory_total_mb, Some(6144));
    // A laptop card with no fan reading must not poison the rest.
    assert_eq!(r.fan_percent, None);
}

#[test]
fn an_empty_nvidia_answer_is_no_reading() {
    assert!(parse_nvidia_csv("").is_empty());
    assert!(parse_nvidia_csv("\n\n").is_empty());
}

#[test]
fn a_short_nvidia_answer_keeps_what_it_has() {
    let r = parse_nvidia_csv("42, 70");
    assert_eq!(r.utilization, Some(42));
    assert_eq!(value(&r.temperature_c), Some(70.0));
    assert_eq!(value(&r.power_w), None);
}

#[test]
fn the_starred_clock_is_the_current_one() {
    assert_eq!(parse_clock_line("1: 1200Mhz *"), Some(1200));
    assert_eq!(parse_clock_line("0: 400Mhz"), Some(400));
    assert_eq!(parse_clock_line("nonsense"), None);
    assert_eq!(current_clock_mhz(Some("0: 400Mhz\n1: 1200Mhz *\n")), Some(1200));
    assert_eq!(current_clock_mhz(Some("0: 400Mhz\n")), None);
    assert_eq!(current_clock_mhz(None), None);
}

#[test]
fn cpu_use_is_the_change_between_two_readings() {
    let before = CpuTotals { busy: 100, total: 200 };
    let after = CpuTotals { busy: 150, total: 300 };
    assert_eq!(cpu_percent(before, after), Some(50.0));
    // The first reading of the session has nothing to compare against.
    assert_eq!(cpu_percent(after, after), None);
    // A counter that went backwards (a reset) reports nothing rather than a wild number.
    assert_eq!(cpu_percent(after, before), None);
}

#[test]
fn a_missing_reading_draws_a_dash_not_a_zero() {
    assert_eq!(megahertz(Some(300)), "300 MHz");
    assert_eq!(megahertz(Some(1800)), "1.80 GHz");
    assert_eq!(megahertz(None), "—");
    assert_eq!(memory(Some(2048), Some(6144)), "2.0 / 6.0 GB");
    assert_eq!(memory(None, Some(6144)), "—");
}

#[test]
fn memory_percentage_needs_both_halves() {
    let r = GpuReading {
        memory_used_mb: Some(3072),
        memory_total_mb: Some(6144),
        ..Default::default()
    };
    assert_eq!(memory_percent(&r), Some(50.0));
    let r = GpuReading { memory_used_mb: Some(3072), ..Default::default() };
    assert_eq!(memory_percent(&r), None);
}

#[test]
fn a_rounded_figure_is_the_one_a_double_gives() {
    for v in [0u32, 1, 999, 1_000, 1_004, 1_005, 1_015, 1_025, 2_675, 12_345, 999_995, u32::MAX] {
        let expected = if v >= 1000 {
            format!("{:.2} GHz", v as f64 / 1000.0)
        } else {
            format!("{v} MHz")
        };
        assert_eq!(megahertz(Some(v)), expected);
    }
    for mb in [0u64, 51, 52, 154, 1_000, 1_024, 1_075, 65_535, 1 << 40, (1 << 53) + 1, u64::MAX] {
        assert_eq!(memory(Some(mb), None), format!("{:.1} GB", mb as f64 / 1024.0));
    }
}

#[test]
fn a_card_is_read_from_its_files() {
    assert!(fan_is_in_range(&files()));
    let r = read_sysfs(true, &files());
    assert_eq!(r.utilization, Some(37));
    assert_eq!(value(&r.temperature_c), Some(59.5));
    assert_eq!(value(&r.power_w), Some(12.345678));
    assert_eq!(r.core_mhz, Some(1200));
    assert_eq!((r.memory_used_mb, r.memory_total_mb), (Some(1024), Some(2048)));
    assert_eq!(r.fan_percent, Some(50));
    assert!(read_sysfs(false, &files()).is_empty());
    assert_eq!(read_gpu(&amd(), None, &files()), r);
    let mut nvidia = amd();
    nvidia.vendor = Vendor::Nvidia;
    assert_eq!(read_gpu(&nvidia, Some("42, 70"), &files()).utilization, Some(42));
    assert!(read_gpu(&nvidia, None, &files()).is_empty());
    assert!(nvidia_query(&nvidia).iter().any(|a| a.contains(NVIDIA_FIELDS)));
}

#[test]
fn a_fan_that_cannot_be_counted_is_told() {
    let mut wild = files();
    wild.hwmon.as_mut().unwrap().pwm1 = Some(u64::MAX.to_string());
    assert!(!fan_is_in_range(&wild));
}

#[test]
fn the_processor_is_read_from_its_counters() {
    let stat = "cpu  100 0 50 800 40 5 5 0 0 0\ncpu0 1 2 3 4\n";
    assert!(stat_is_in_range(Some(stat)));
    let totals = cpu_totals(Some(stat)).unwrap();
    assert_eq!(totals.total, 1000);
    assert_eq!(totals.busy, 160);
    assert_eq!(cpu_totals(None), None);
    let (reading, next) = read_cpu(CpuTotals { busy: 60, total: 800 }, Some(stat), Some("performance\n"), Vec::new());
    assert_eq!(reading.utilization, Some((100, 200)));
    assert_eq!(reading.governor.as_deref(), Some("performance"));
    assert_eq!(next, totals);
    assert!(!stat_is_in_range(Some("cpu 18446744073709551615 1 0 0\n")));
}

#[test]
fn the_processors_own_sensor_is_used() {
    let sensor = |path: &str, name: &str, temp: &str| Sensor {
        path: path.into(),
        name: Some(name.into()),
        temp1_input: Some(temp.into()),
    };
    assert_eq!(
        cpu_temperature(vec![
            sensor("/sys/class/hwmon/hwmon0", "nvme\n", "40000\n"),
            sensor("/sys/class/hwmon/hwmon1", "k10temp\n", "61250\n"),
        ]),
        Some(61_250)
    );
    assert_eq!(cpu_temperature(Vec::new()), None);
}

#[test]
fn memory_is_read_where_the_kernel_says() {
    let text = "MemTotal: 100 kB\nMemAvailable: 40 kB\n";
    assert!(meminfo_is_in_range(text));
    assert_eq!(read_memory(Some(text)), Usage { used: 60 * 1024, total: 100 * 1024 });
    assert!(!read_memory(None).is_known());
    assert!(!meminfo_is_in_range("MemTotal: 18446744073709551615 kB\n"));
}

#[test]
fn the_first_directory_is_the_first_by_name() {
    assert_eq!(
        first_subdirectory(vec!["hwmon4".into(), "hwmon2".into()]).as_deref(),
        Some("hwmon2")
    );
    assert_eq!(first_subdirectory(Vec::new()), None);
}

#[test]
fn nothing_read_of_the_processor_is_nothing() {
    let empty = CpuReading::default();
    assert_eq!(empty.utilization, None);
    assert_eq!(empty.governor, None);
    assert!(empty.temperature_c.is_none());
    assert_eq!(empty.clone(), empty);
}
