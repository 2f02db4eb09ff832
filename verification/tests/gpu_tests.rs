use process_monitor::gpu::{
    backend_rank_exec, dedup_adapters, extract_pid, gpu_stats_from_counters, normalized_bytes_exec,
    overall_utilization_exec, process_memory_exec, process_utilization_exec, AdapterCandidate,
    GpuAdapterInfo, GpuAdapterMemorySample, GpuBackend, GpuEngineSample, GpuProcessMemorySample,
    Platform,
};

#[test]
fn pids_in_counter_names() {
    assert_eq!(extract_pid("pid_1128_luid_0x00000000_0x0000D1C4_phys_0_eng_0_engtype_3D"), Some(1128));
    assert_eq!(extract_pid("pid_42"), Some(42));
    assert_eq!(extract_pid("luid_pid_7_x"), Some(7));
    assert_eq!(extract_pid("pid__x"), None);
    assert_eq!(extract_pid("pid_"), None);
    assert_eq!(extract_pid("nothing"), None);
    assert_eq!(extract_pid("pid_+5_x"), Some(5));
    assert_eq!(extract_pid("pid_4294967295"), Some(4294967295));
    assert_eq!(extract_pid("pid_4294967296"), None);
    assert_eq!(extract_pid("pid_12a_x"), None);
}

fn engine(name: &str, u: u64) -> GpuEngineSample {
    GpuEngineSample { name: name.to_string(), utilization_percentage: u }
}

#[test]
fn overall_load_prefers_3d() {
    let rows = vec![
        engine("pid_1_eng_0_engtype_3D", 30),
        engine("pid_2_eng_1_engtype_VideoDecode", 80),
    ];
    assert_eq!(overall_utilization_exec(&rows), Some(30));
    let rows = vec![engine("pid_1_engtype_3D", 0), engine("pid_2_engtype_Copy", 80)];
    assert_eq!(overall_utilization_exec(&rows), Some(80));
    assert_eq!(overall_utilization_exec(&vec![engine("x", 0)]), None);
    assert_eq!(overall_utilization_exec(&vec![engine("engtype_3D", 250)]), Some(100));
}

#[test]
fn load_per_process() {
    let rows = vec![
        engine("pid_10_eng_0_engtype_3D", 20),
        engine("pid_10_eng_1_engtype_Copy", 90),
        engine("pid_10_eng_2_engtype_3D", 35),
        engine("pid_20_eng_0_engtype_Copy", 140),
        engine("pid_0_eng_0_engtype_3D", 50),
        engine("garbage", 50),
    ];
    let m = process_utilization_exec(&rows);
    assert_eq!(m.len(), 2);
    assert_eq!(m.get(&10), Some(&35));
    assert_eq!(m.get(&20), Some(&100));
}

#[test]
fn memory_counters_normalized_to_bytes() {
    assert_eq!(normalized_bytes_exec(512), 512 * 1_048_576);
    assert_eq!(normalized_bytes_exec(1_048_576), 1_048_576 * 1_048_576);
    assert_eq!(normalized_bytes_exec(1_048_577), 1_048_577);
}

fn mem(name: &str, du: u64, dl: u64) -> GpuAdapterMemorySample {
    GpuAdapterMemorySample { name: name.to_string(), dedicated_usage: du, dedicated_limit: dl, shared_usage: 0, shared_limit: 0 }
}

#[test]
fn overall_stats_choose_total_row() {
    let s = gpu_stats_from_counters(
        &vec![engine("engtype_3D", 12)],
        &vec![mem("luid_0", 100, 200), mem("_Total", 2_000_000_000, 8_000_000_000)],
    )
    .unwrap();
    assert_eq!(s.utilization_percent, Some(12));
    assert_eq!(s.dedicated_used_bytes, Some(2_000_000_000));
    assert_eq!(s.dedicated_total_bytes, Some(8_000_000_000));
    assert_eq!(s.shared_used_bytes, Some(0));
    let s = gpu_stats_from_counters(&vec![], &vec![mem("luid_0", 100, 200)]).unwrap();
    assert_eq!(s.utilization_percent, None);
    assert_eq!(s.dedicated_used_bytes, Some(100 * 1_048_576));
    let s = gpu_stats_from_counters(&vec![engine("x", 5)], &vec![]).unwrap();
    assert_eq!(s.dedicated_used_bytes, None);
    assert!(gpu_stats_from_counters(&vec![engine("x", 0)], &vec![]).is_none());
}

#[test]
fn memory_per_process_takes_maxima() {
    let rows = vec![
        GpuProcessMemorySample { name: "pid_5_luid_a".into(), dedicated_usage: 100, shared_usage: 3_000_000, total_committed: 7 },
        GpuProcessMemorySample { name: "pid_5_luid_b".into(), dedicated_usage: 2_000_000, shared_usage: 1, total_committed: 9 },
        GpuProcessMemorySample { name: "pid_0_luid_a".into(), dedicated_usage: 1, shared_usage: 1, total_committed: 1 },
    ];
    let m = process_memory_exec(&rows);
    assert_eq!(m.len(), 1);
    let e = m.get(&5).unwrap();
    // 100 MiB beats 2,000,000 bytes.
    assert_eq!(e.dedicated_used_bytes, Some(100 * 1_048_576));
    assert_eq!(e.shared_used_bytes, Some(3_000_000));
    assert_eq!(e.total_committed_bytes, Some(9 * 1_048_576));
}

fn adapter(name: &str, vendor: u32, device: u32, backend: &str) -> GpuAdapterInfo {
    GpuAdapterInfo {
        name: name.to_string(),
        backend: backend.to_string(),
        device_type: "DiscreteGpu".to_string(),
        vendor,
        device,
        driver: String::new(),
        driver_info: String::new(),
    }
}

#[test]
fn backend_preference_per_platform() {
    assert_eq!(backend_rank_exec(GpuBackend::Dx12, Platform::Windows), 0);
    assert_eq!(backend_rank_exec(GpuBackend::Dx12, Platform::Other), 4);
    assert_eq!(backend_rank_exec(GpuBackend::Dx12, Platform::MacOs), 10);
    assert_eq!(backend_rank_exec(GpuBackend::Metal, Platform::MacOs), 0);
    assert_eq!(backend_rank_exec(GpuBackend::Vulkan, Platform::Other), 0);
    assert_eq!(backend_rank_exec(GpuBackend::Empty, Platform::Windows), 10);
}

#[test]
fn adapters_deduplicated_and_sorted() {
    let cands = vec![
        AdapterCandidate { backend: GpuBackend::Gl, info: adapter("NVIDIA RTX", 0x10de, 1, "Gl") },
        AdapterCandidate { backend: GpuBackend::Vulkan, info: adapter("NVIDIA RTX", 0x10de, 1, "Vulkan") },
        AdapterCandidate { backend: GpuBackend::Gl, info: adapter("llvmpipe", 0x10005, 0, "Gl") },
        AdapterCandidate { backend: GpuBackend::Vulkan, info: adapter("AMD Radeon", 0x1002, 2, "Vulkan") },
        AdapterCandidate { backend: GpuBackend::Dx12, info: adapter("NVIDIA RTX", 0x10de, 1, "Dx12") },
    ];
    let out = dedup_adapters(cands, Platform::Other);
    let names: Vec<(&str, &str)> = out.iter().map(|a| (a.name.as_str(), a.backend.as_str())).collect();
    assert_eq!(names, vec![("AMD Radeon", "Vulkan"), ("llvmpipe", "Gl"), ("NVIDIA RTX", "Vulkan")]);
}
