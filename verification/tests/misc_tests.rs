use process_monitor::dashboard::{gpu_load_values, high_risk_count, top_risk_rows, top_value_rows, vram_values};
use process_monitor::gpu::GpuProcessMemory;
use std::collections::HashMap;
use process_monitor::logger::{EventLogger, LogLevel};
use process_monitor::models::{
    EventType, MonitoredProcess, ProcessMetadata, ProcessMetrics, ProcessRisk, RiskLevel, SystemEvent,
};
use process_monitor::app::SortBy;
use process_monitor::sorting::sort_processes;
use process_monitor::text::{chars_of, decimal_string, parse_unsigned_exec, trim_exec};

fn proc_with(pid: u32, score: u8, level: RiskLevel) -> MonitoredProcess {
    MonitoredProcess {
        metadata: ProcessMetadata {
            pid,
            name: format!("p{}", pid),
            parent_pid: None,
            command: vec![],
            start_time: 0,
            uid: None,
        },
        metrics_history: vec![],
        current_risk: ProcessRisk { score, level, factors: vec![] },
        lineage_path: vec![],
    }
}

#[test]
fn counts_high_risk_processes() {
    let ps = vec![
        proc_with(1, 10, RiskLevel::Low),
        proc_with(2, 65, RiskLevel::High),
        proc_with(3, 90, RiskLevel::Critical),
        proc_with(4, 30, RiskLevel::Medium),
    ];
    assert_eq!(high_risk_count(&ps), 2);
    assert_eq!(high_risk_count(&vec![]), 0);
}

#[test]
fn top_risk_list_orders_by_score_then_pid() {
    let ps = vec![
        proc_with(1, 10, RiskLevel::Low),
        proc_with(2, 65, RiskLevel::High),
        proc_with(7, 10, RiskLevel::Low),
        proc_with(3, 90, RiskLevel::Critical),
    ];
    assert_eq!(top_risk_rows(&ps, 10), vec![3, 1, 2, 0]);
    assert_eq!(top_risk_rows(&ps, 2), vec![3, 1]);
    assert_eq!(top_risk_rows(&ps, 0), Vec::<usize>::new());
    assert_eq!(top_risk_rows(&vec![], 10), Vec::<usize>::new());
}

#[test]
fn top_risk_list_keeps_row_order_among_equals() {
    let ps = vec![proc_with(5, 20, RiskLevel::Medium), proc_with(5, 20, RiskLevel::Medium)];
    assert_eq!(top_risk_rows(&ps, 10), vec![0, 1]);
}

fn event(severity: RiskLevel, t: EventType) -> SystemEvent {
    SystemEvent { timestamp: 0, event_type: t, pid: 1234, description: "Started: vim (1234)".into(), severity }
}

#[test]
fn log_lines_and_levels() {
    let r = EventLogger::format_event(&event(RiskLevel::Low, EventType::ProcessStarted));
    assert_eq!(r.level, LogLevel::Info);
    assert_eq!(r.message, "[LOW] PID:1234 - Started: vim (1234) (ProcessStarted)");
    let r = EventLogger::format_event(&event(RiskLevel::Medium, EventType::HighResourceUsage));
    assert_eq!(r.level, LogLevel::Warn);
    assert_eq!(r.message, "[MEDIUM] PID:1234 - Started: vim (1234) (HighResourceUsage)");
    let r = EventLogger::format_event(&event(RiskLevel::High, EventType::AnomalyDetected));
    assert_eq!(r.level, LogLevel::Error);
    assert!(r.message.starts_with("[HIGH] PID:1234"));
    let r = EventLogger::format_event(&event(RiskLevel::Critical, EventType::PrivilegeEscalation));
    assert_eq!(r.level, LogLevel::Error);
    assert!(r.message.ends_with("(PrivilegeEscalation)"));
}

#[test]
fn decimal_and_parsing() {
    assert_eq!(decimal_string(0), "0");
    assert_eq!(decimal_string(1234567890), "1234567890");
    assert_eq!(decimal_string(u64::MAX), "18446744073709551615");
    assert_eq!(parse_unsigned_exec(&chars_of("007"), u64::MAX), Some(7));
    assert_eq!(parse_unsigned_exec(&chars_of("+"), u64::MAX), None);
    assert_eq!(parse_unsigned_exec(&chars_of("-1"), u64::MAX), None);
    assert_eq!(parse_unsigned_exec(&chars_of(""), u64::MAX), None);
    assert_eq!(parse_unsigned_exec(&chars_of("18446744073709551616"), u64::MAX), None);
    assert_eq!(parse_unsigned_exec(&chars_of("4294967295"), 4294967295), Some(4294967295));
    assert_eq!(parse_unsigned_exec(&chars_of("4294967296"), 4294967295), None);
}

#[test]
fn trimming_and_case() {
    let t: String = trim_exec(&chars_of("\u{a0}\t x y \r\n\u{3000}")).into_iter().collect();
    assert_eq!(t, "x y");
    let t: String = trim_exec(&chars_of(" \n ")).into_iter().collect();
    assert_eq!(t, "");
}

#[test]
fn name_sort_ignores_case() {
    let named = |pid: u32, name: &str| {
        let mut p = proc_with(pid, 0, RiskLevel::Low);
        p.metadata.name = name.to_string();
        p
    };
    let procs = vec![named(1, "ÄBC"), named(2, "Beta"), named(3, "alpha")];
    let sorted = sort_processes(procs, SortBy::Name, false);
    let pids: Vec<u32> = sorted.iter().map(|p| p.metadata.pid).collect();
    assert_eq!(pids, vec![3, 2, 1]);
}

#[test]
fn disk_kib_helpers() {
    let m = ProcessMetrics {
        cpu_usage_bits: 0,
        memory_usage: 0,
        virtual_memory: 0,
        disk_read: 4095,
        disk_write: 1_048_576,
        status: String::new(),
        thread_count: None,
    };
    assert_eq!(m.disk_read_kib(), 3);
    assert_eq!(m.disk_write_kib(), 1024);
}

#[test]
fn top_values_are_largest_first_and_stable() {
    assert_eq!(top_value_rows(&vec![5, 9, 5, 0, 9, 7], 4), vec![1, 4, 5, 0]);
    assert_eq!(top_value_rows(&vec![3, 3, 3], 10), vec![0, 1, 2]);
    assert_eq!(top_value_rows(&vec![], 10), Vec::<usize>::new());
    assert_eq!(top_value_rows(&vec![1, 2], 0), Vec::<usize>::new());
}

#[test]
fn gpu_values_per_listed_process() {
    let procs = vec![proc_with(4, 0, RiskLevel::Low), proc_with(7, 0, RiskLevel::Low), proc_with(9, 0, RiskLevel::Low)];
    let mut usage: HashMap<u32, u64> = HashMap::new();
    usage.insert(7, 55);
    usage.insert(3, 99);
    assert_eq!(gpu_load_values(&procs, &usage), vec![0, 55, 0]);
    let mut mem: HashMap<u32, GpuProcessMemory> = HashMap::new();
    mem.insert(
        9,
        GpuProcessMemory { dedicated_used_bytes: Some(2048), shared_used_bytes: None, total_committed_bytes: None },
    );
    mem.insert(
        4,
        GpuProcessMemory { dedicated_used_bytes: None, shared_used_bytes: Some(1), total_committed_bytes: None },
    );
    assert_eq!(vram_values(&procs, &mem), vec![0, 0, 2048]);
    let loads = gpu_load_values(&procs, &usage);
    assert_eq!(top_value_rows(&loads, 2), vec![1, 0]);
}
