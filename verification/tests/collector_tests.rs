use process_monitor::collector::{
    average_nonzero_mhz, chosen_cpu_mhz, counters_in_range_exec, cpu_freq_cache_fresh, cpu_mhz_from_counters,
    cpufreq_in_range_exec, cpufreq_mhz_exec, disk_list_refresh_due, disk_used_space,
    host_name_text, is_cpu_entry_name_exec, mean_exec, nonzero_sum_fits, os_info_text,
    pick_mhz_exec, ram_speed_from_inventory, ram_speed_from_modules, sum_fits, CpuFreqEntry,
    MemoryModuleSample, ProcessorFrequencySample, RamSpeedProbe,
};

#[test]
fn os_and_host_names() {
    assert_eq!(os_info_text(Some("Ubuntu".into()), Some("24.04".into())), "Ubuntu 24.04");
    assert_eq!(os_info_text(None, Some("10".into())), "Unknown 10");
    assert_eq!(os_info_text(Some("Linux".into()), None), "Linux ");
    assert_eq!(host_name_text(Some("box".into())), "box");
    assert_eq!(host_name_text(None), "Unknown");
}

#[test]
fn disk_list_refresh_after_a_minute() {
    assert!(!disk_list_refresh_due(59));
    assert!(disk_list_refresh_due(60));
    assert!(disk_list_refresh_due(61));
}

#[test]
fn disk_space_used() {
    assert_eq!(disk_used_space(1000, 250), (1000, 750));
    assert_eq!(disk_used_space(0, 0), (1, 1));
    assert_eq!(disk_used_space(100, 500), (100, 0));
}

#[test]
fn averages_of_frequencies() {
    assert_eq!(average_nonzero_mhz(&vec![0, 3000, 0, 2001]), Some(2500));
    assert_eq!(average_nonzero_mhz(&vec![0, 0]), None);
    assert_eq!(average_nonzero_mhz(&vec![]), None);
    assert_eq!(mean_exec(&vec![1, 2]), Some(1));
    assert!(sum_fits(&vec![u64::MAX, 0]));
    assert!(!sum_fits(&vec![u64::MAX, 1]));
    assert!(nonzero_sum_fits(&vec![u64::MAX, 0, 0]));
}

fn row(name: &str, base: Option<u32>, actual: Option<u32>, pct: Option<u32>) -> ProcessorFrequencySample {
    ProcessorFrequencySample {
        name: name.to_string(),
        processor_frequency: base,
        actual_frequency: actual,
        percent_of_maximum_frequency: pct,
    }
}

#[test]
fn counter_row_frequency() {
    assert_eq!(pick_mhz_exec(&row("0,0", Some(3000), Some(4200), Some(100))), Some(4200));
    assert_eq!(pick_mhz_exec(&row("0,0", Some(3000), Some(0), Some(115))), Some(3450));
    assert_eq!(pick_mhz_exec(&row("0,0", Some(2999), None, Some(33))), Some(990));
    assert_eq!(pick_mhz_exec(&row("0,0", Some(3000), None, None)), Some(3000));
    assert_eq!(pick_mhz_exec(&row("0,0", Some(0), None, Some(50))), None);
    assert_eq!(pick_mhz_exec(&row("0,0", Some(1), None, Some(1))), Some(0));
}

#[test]
fn counters_prefer_total_row() {
    let rows = vec![
        row("0,0", Some(3000), Some(4000), None),
        row("0,_Total", Some(3000), Some(3500), None),
        row("_Total", Some(3000), Some(1000), None),
    ];
    assert!(counters_in_range_exec(&rows));
    assert_eq!(cpu_mhz_from_counters(&rows), Some(3500));
}

#[test]
fn total_row_decides_even_when_the_rows_would_overflow() {
    let mut rows: Vec<ProcessorFrequencySample> =
        (0..200).map(|_| row("0,1", Some(u32::MAX), None, Some(u32::MAX))).collect();
    assert!(!counters_in_range_exec(&rows));
    rows.push(row("_Total", Some(3000), Some(2800), None));
    assert!(counters_in_range_exec(&rows));
    assert_eq!(cpu_mhz_from_counters(&rows), Some(2800));
    rows.pop();
    rows.push(row("_Total", None, None, None));
    assert!(!counters_in_range_exec(&rows));
}

#[test]
fn counters_average_without_total() {
    let rows = vec![
        row("0,0", Some(3000), Some(4000), None),
        row("0,1", Some(3000), Some(3001), None),
        row("0,2", None, None, None),
    ];
    assert_eq!(cpu_mhz_from_counters(&rows), Some(3500));
    // A total row that gives nothing falls back to the average of all rows.
    let rows = vec![row("_Total", None, None, None), row("0,1", Some(2000), None, None)];
    assert_eq!(cpu_mhz_from_counters(&rows), Some(2000));
    assert_eq!(cpu_mhz_from_counters(&vec![]), None);
}

#[test]
fn cpu_frequency_cache() {
    assert!(cpu_freq_cache_fresh(499_999_999, Some(1)));
    assert!(!cpu_freq_cache_fresh(500_000_000, Some(1)));
    assert!(!cpu_freq_cache_fresh(0, None));
}

#[test]
fn cpu_directory_entries() {
    assert!(is_cpu_entry_name_exec("cpu0"));
    assert!(is_cpu_entry_name_exec("cpu17"));
    assert!(is_cpu_entry_name_exec("cpu"));
    assert!(!is_cpu_entry_name_exec("cpufreq"));
    assert!(!is_cpu_entry_name_exec("cpuidle"));
    assert!(!is_cpu_entry_name_exec("cp"));
    assert!(!is_cpu_entry_name_exec("node0"));
}

fn entry(name: &str, contents: Option<&str>) -> CpuFreqEntry {
    CpuFreqEntry { name: name.to_string(), contents: contents.map(|s| s.to_string()) }
}

#[test]
fn cpufreq_average_in_mhz() {
    let es = vec![
        entry("cpu0", Some("2400000\n")),
        entry("cpu1", Some(" 3600500 ")),
        entry("cpufreq", Some("9999999")),
        entry("cpu2", None),
        entry("cpu3", Some("0")),
        entry("cpu4", Some("abc")),
        entry("cpu5", Some("+1200000")),
    ];
    assert!(cpufreq_in_range_exec(&es));
    // (2400000 + 3600500 + 1200000) / 3 = 2400166 kHz -> 2400 MHz
    assert_eq!(cpufreq_mhz_exec(&es), Some(2400));
    assert_eq!(cpufreq_mhz_exec(&vec![entry("cpu0", Some("1500\n"))]), Some(2));
    assert_eq!(cpufreq_mhz_exec(&vec![entry("cpu0", Some("1499"))]), Some(1));
    assert_eq!(cpufreq_mhz_exec(&vec![]), None);
    assert!(!cpufreq_in_range_exec(&vec![entry("cpu0", Some("18446744073709551615"))]));
}

#[test]
fn ram_speed_from_memory_modules() {
    let ms = vec![
        MemoryModuleSample { speed: Some(3200), configured_clock_speed: Some(2666) },
        MemoryModuleSample { speed: Some(2400), configured_clock_speed: None },
        MemoryModuleSample { speed: Some(4000), configured_clock_speed: Some(0) },
    ];
    assert_eq!(ram_speed_from_modules(&ms), Some(2666));
    assert_eq!(ram_speed_from_modules(&vec![]), None);
}

#[test]
fn ram_speed_from_inventory_text() {
    let text = "Memory Device\n\tSize: 16 GB\n\tSpeed: 3200 MT/s\n\tConfigured Memory Speed: 2933 MT/s\r\n\tSpeed: Unknown\n\tConfigured Memory Speed: 3600 MT/s";
    assert_eq!(ram_speed_from_inventory(text), Some(3600));
    assert_eq!(ram_speed_from_inventory("Speed: 0 MT/s\n"), None);
    assert_eq!(ram_speed_from_inventory(""), None);
    assert_eq!(ram_speed_from_inventory("  Speed:2400\n"), Some(2400));
    assert_eq!(ram_speed_from_inventory("Max Speed: 5000 MT/s\n"), None);
    assert_eq!(
        ram_speed_from_inventory("Speed: 99999999999999999999999 MT/s"),
        Some(u64::MAX)
    );
}

#[test]
fn ram_speed_probe_runs_once() {
    let mut p = RamSpeedProbe::new();
    assert_eq!(p.earlier_reading(), None);
    p.record(Some(3200));
    assert_eq!(p.earlier_reading(), Some(Some(3200)));
    p.record(None);
    assert_eq!(p.earlier_reading(), Some(None));
}

#[test]
fn preferred_frequency_wins_over_the_average() {
    assert_eq!(chosen_cpu_mhz(Some(3100), &vec![1000, 2000]), Some(3100));
    assert_eq!(chosen_cpu_mhz(None, &vec![1000, 0, 2001]), Some(1500));
    assert_eq!(chosen_cpu_mhz(None, &vec![0, 0]), None);
    assert_eq!(chosen_cpu_mhz(Some(2500), &vec![u64::MAX, u64::MAX]), Some(2500));
}
