use process_monitor::analyzer::{is_suspicious, is_suspicious_lowercase, BehaviorAnalyzer};
use process_monitor::models::{ProcessMetadata, ProcessMetrics, RiskLevel};

fn metadata(name: &str) -> ProcessMetadata {
    ProcessMetadata {
        pid: 42,
        name: name.to_string(),
        parent_pid: Some(1),
        command: vec![name.to_string()],
        start_time: 0,
        uid: None,
    }
}

fn metrics(cpu_percent: f32, memory_kib: u64) -> ProcessMetrics {
    ProcessMetrics {
        cpu_usage_bits: cpu_percent.to_bits(),
        memory_usage: memory_kib,
        virtual_memory: 0,
        disk_read: 0,
        disk_write: 0,
        status: "Run".to_string(),
        thread_count: None,
    }
}

#[test]
fn idle_process_is_low_risk() {
    let r = BehaviorAnalyzer::new().analyze_process(&metadata("bash"), &metrics(0.0, 0));
    assert_eq!(r.score, 0);
    assert_eq!(r.level, RiskLevel::Low);
    assert!(r.factors.is_empty());
}

#[test]
fn half_cpu_half_memory_scores_35() {
    // 50 % CPU -> 20 points, 512 MiB -> 15 points.
    let r = BehaviorAnalyzer::new().analyze_process(&metadata("bash"), &metrics(50.0, 524_288));
    assert_eq!(r.score, 35);
    assert_eq!(r.level, RiskLevel::Medium);
    assert_eq!(r.factors, vec!["High CPU: 50.0%".to_string()]);
}

#[test]
fn everything_maxed_is_critical() {
    let r = BehaviorAnalyzer::new().analyze_process(&metadata("nmap"), &metrics(185.0, 2_097_152));
    assert_eq!(r.score, 90);
    assert_eq!(r.level, RiskLevel::Critical);
    assert_eq!(
        r.factors,
        vec![
            "Critical CPU: 185.0%".to_string(),
            "High Memory: 2048 MiB".to_string(),
            "Suspicious Name: nmap".to_string(),
        ]
    );
}

#[test]
fn critical_needs_all_three() {
    // Full CPU and memory but an ordinary name: 70 points, High.
    let r = BehaviorAnalyzer::new().analyze_process(&metadata("cargo"), &metrics(100.0, 1_048_576));
    assert_eq!(r.score, 70);
    assert_eq!(r.level, RiskLevel::High);
}

#[test]
fn score_is_rounded_down() {
    // 12.345 % CPU -> about 4.938 points; 100 MiB -> 2.9296875 points; total 7.8676875.
    let r = BehaviorAnalyzer::new().analyze_process(&metadata("x"), &metrics(12.345, 102_400));
    assert_eq!(r.score, 7);
    assert!(r.factors.is_empty());
}

#[test]
fn level_boundaries() {
    let a = BehaviorAnalyzer::new();
    // 20 % CPU exactly gives 8 points; a suspicious name adds 20.
    let r = a.analyze_process(&metadata("netcat"), &metrics(0.0, 0));
    assert_eq!(r.score, 20);
    assert_eq!(r.level, RiskLevel::Medium);
    let r = a.analyze_process(&metadata("x"), &metrics(49.999, 0));
    assert_eq!(r.score, 19);
    assert_eq!(r.level, RiskLevel::Low);
    // 100 % CPU and ~0.667 GiB: 40 + 20 = 60.
    let r = a.analyze_process(&metadata("x"), &metrics(100.0, 699_051));
    assert_eq!(r.score, 60);
    assert_eq!(r.level, RiskLevel::High);
    let r = a.analyze_process(&metadata("x"), &metrics(100.0, 699_050));
    assert_eq!(r.score, 59);
    assert_eq!(r.level, RiskLevel::Medium);
}

#[test]
fn cpu_thresholds_are_strict() {
    let a = BehaviorAnalyzer::new();
    assert!(a.analyze_process(&metadata("x"), &metrics(20.0, 0)).factors.is_empty());
    assert_eq!(
        a.analyze_process(&metadata("x"), &metrics(20.001, 0)).factors,
        vec!["High CPU: 20.0%".to_string()]
    );
    assert_eq!(
        a.analyze_process(&metadata("x"), &metrics(80.0, 0)).factors,
        vec!["High CPU: 80.0%".to_string()]
    );
    assert_eq!(
        a.analyze_process(&metadata("x"), &metrics(80.001, 0)).factors,
        vec!["Critical CPU: 80.0%".to_string()]
    );
}

#[test]
fn cpu_factor_rounds_to_one_decimal() {
    let a = BehaviorAnalyzer::new();
    assert_eq!(
        a.analyze_process(&metadata("x"), &metrics(25.46, 0)).factors,
        vec!["High CPU: 25.5%".to_string()]
    );
    assert_eq!(
        a.analyze_process(&metadata("x"), &metrics(25.44, 0)).factors,
        vec!["High CPU: 25.4%".to_string()]
    );
    assert_eq!(
        a.analyze_process(&metadata("x"), &metrics(99.96, 0)).factors,
        vec!["Critical CPU: 100.0%".to_string()]
    );
}

#[test]
fn memory_threshold_is_1000_mib() {
    let a = BehaviorAnalyzer::new();
    assert!(a.analyze_process(&metadata("x"), &metrics(0.0, 1_024_000)).factors.is_empty());
    assert_eq!(
        a.analyze_process(&metadata("x"), &metrics(0.0, 1_024_001)).factors,
        vec!["High Memory: 1000 MiB".to_string()]
    );
    assert_eq!(
        a.analyze_process(&metadata("x"), &metrics(0.0, 1_536_512)).factors,
        vec!["High Memory: 1500 MiB".to_string()]
    );
}

#[test]
fn suspicious_names_match_case_insensitively() {
    assert!(is_suspicious("NetCat"));
    assert!(is_suspicious("PowerShell.EXE"));
    assert!(is_suspicious("my-keylogger-2"));
    assert!(is_suspicious("sync")); // contains "nc"
    assert!(!is_suspicious("bash"));
    assert!(!is_suspicious(""));
}

#[test]
fn suspicious_lowercase_checks_substrings() {
    assert!(is_suspicious_lowercase("mimikatz"));
    assert!(is_suspicious_lowercase("cmd.exe"));
    assert!(!is_suspicious_lowercase("cmd"));
    assert!(!is_suspicious_lowercase("NMAP"));
}

#[test]
fn suspicious_factor_keeps_name_as_given() {
    let r = BehaviorAnalyzer::new().analyze_process(&metadata("WireShark"), &metrics(0.0, 0));
    assert_eq!(r.score, 20);
    assert_eq!(r.factors, vec!["Suspicious Name: WireShark".to_string()]);
}

#[test]
fn score_is_monotone_in_cpu() {
    let a = BehaviorAnalyzer::new();
    let mut last = 0u8;
    for cpu in (0..=120_000u32).step_by(7_000) {
        let s = a.analyze_process(&metadata("x"), &metrics(cpu as f32 / 1000.0, 300_000)).score;
        assert!(s >= last);
        last = s;
    }
}

#[test]
fn score_uses_the_exact_reading() {
    let a = BehaviorAnalyzer::new();
    // 40 * 0.13177098 + 30 * 724527 / 1048576 is just below 26.
    let r = a.analyze_process(&metadata("x"), &metrics(13.177098, 724_527));
    assert_eq!(r.score, 25);
    // A reading a hair above 80 % is above the critical threshold.
    let r = a.analyze_process(&metadata("x"), &metrics(80.0004, 0));
    assert_eq!(r.factors, vec!["Critical CPU: 80.0%".to_string()]);
}

#[test]
fn cpu_text_is_the_float_printed_to_one_decimal() {
    let a = BehaviorAnalyzer::new();
    for cpu in [20.15f32, 25.46, 33.35, 80.25, 99.95, 150.05, 1234.5678, 1e30] {
        let r = a.analyze_process(&metadata("x"), &metrics(cpu, 0));
        let label = if cpu > 80.0 { "Critical CPU" } else { "High CPU" };
        assert_eq!(r.factors, vec![format!("{}: {:.1}%", label, cpu)]);
    }
    assert_eq!(
        a.analyze_process(&metadata("x"), &metrics(20.15, 0)).factors,
        vec!["High CPU: 20.1%".to_string()]
    );
    assert_eq!(
        a.analyze_process(&metadata("x"), &metrics(f32::INFINITY, 0)).factors,
        vec!["Critical CPU: inf%".to_string()]
    );
}

#[test]
fn unusual_cpu_readings() {
    let a = BehaviorAnalyzer::new();
    // NaN: no CPU factor, but `min` turns it into 100 % for the score.
    let r = a.analyze_process(&metadata("x"), &metrics(f32::NAN, 0));
    assert!(r.factors.is_empty());
    assert_eq!(r.score, 40);
    // Infinity earns the full 40 points.
    assert_eq!(a.analyze_process(&metadata("x"), &metrics(f32::INFINITY, 0)).score, 40);
    // A negative reading takes points away, down to 0.
    assert_eq!(a.analyze_process(&metadata("x"), &metrics(-5.0, 1_048_576)).score, 28);
    assert_eq!(a.analyze_process(&metadata("x"), &metrics(-500.0, 1_048_576)).score, 0);
    assert_eq!(a.analyze_process(&metadata("x"), &metrics(f32::NEG_INFINITY, 1_048_576)).score, 0);
    assert_eq!(a.analyze_process(&metadata("netcat"), &metrics(1e-40, 0)).score, 20);
    assert_eq!(a.analyze_process(&metadata("netcat"), &metrics(-0.0, 0)).score, 20);
}

#[test]
fn memory_text_is_the_float_printed_whole() {
    let a = BehaviorAnalyzer::new();
    for kib in [1_024_001u64, 1_536_512, 33_554_945, 33_554_947, 123_456_789_012, u64::MAX] {
        let mib = (kib as f64 / 1024.0) as f32;
        let r = a.analyze_process(&metadata("x"), &metrics(0.0, kib));
        assert_eq!(r.factors, vec![format!("High Memory: {:.0} MiB", mib)]);
    }
    assert_eq!(
        a.analyze_process(&metadata("x"), &metrics(0.0, 33_554_945)).factors,
        vec!["High Memory: 32768 MiB".to_string()]
    );
}
