use process_monitor::app::{tick_due, push_capped, seconds_between, seed_points, truncate_front, App, Key, KeyCode, SortBy};
use process_monitor::models::{EventType, MonitoredProcess, ProcessMetadata, ProcessMetrics, RiskLevel, SystemEvent};
use process_monitor::tick::{disk_totals, Refresh, Sample};

const SEC: i64 = 1_000_000_000;

fn sample(pid: u32, name: &str, cpu: f32, mem: u64) -> Sample {
    (
        pid,
        ProcessMetadata {
            pid,
            name: name.to_string(),
            parent_pid: None,
            command: vec![],
            start_time: 0,
            uid: None,
        },
        ProcessMetrics {
            cpu_usage_bits: cpu.to_bits(),
            memory_usage: mem,
            virtual_memory: 0,
            disk_read: 0,
            disk_write: 0,
            status: "Run".to_string(),
            thread_count: None,
        },
    )
}

fn key(code: KeyCode) -> Key {
    Key { code, ctrl: false }
}

fn pids(app: &App) -> Vec<u32> {
    app.processes.iter().map(|p| p.metadata.pid).collect()
}

#[test]
fn new_state_defaults() {
    let app = App::new(5 * SEC, Some(3000), None);
    assert_eq!(app.selected_tab, 0);
    assert!(!app.should_quit);
    assert_eq!(app.tick_count, 9);
    assert_eq!(app.selected_row, Some(0));
    assert_eq!(app.selected_pid, None);
    assert_eq!(app.sort_by, SortBy::Cpu);
    assert!(app.sort_desc);
    assert_eq!(app.cpu_freq_mhz, Some(3000));
    assert_eq!(app.ram_speed_mhz, None);
    assert!(app.known_pids.is_empty());
}

#[test]
fn quit_keys_quit_on_every_tab() {
    for tab in 0..4 {
        for k in [
            key(KeyCode::Esc),
            key(KeyCode::Char('q')),
            key(KeyCode::Char('Q')),
            Key { code: KeyCode::Char('c'), ctrl: true },
        ] {
            let mut app = App::new(0, None, None);
            app.selected_tab = tab;
            app.on_key(k);
            assert!(app.should_quit);
            assert_eq!(app.selected_tab, tab);
        }
    }
    let mut app = App::new(0, None, None);
    app.on_key(key(KeyCode::Char('c')));
    assert!(!app.should_quit);
}

#[test]
fn tab_keys_switch_tabs() {
    let mut app = App::new(0, None, None);
    app.on_key(key(KeyCode::Tab));
    assert_eq!(app.selected_tab, 1);
    app.on_key(key(KeyCode::Char('\t')));
    assert_eq!(app.selected_tab, 2);
    app.on_key(key(KeyCode::BackTab));
    assert_eq!(app.selected_tab, 1);
    app.on_key(key(KeyCode::BackTab));
    app.on_key(key(KeyCode::BackTab));
    assert_eq!(app.selected_tab, 3);
    app.on_key(key(KeyCode::Tab));
    assert_eq!(app.selected_tab, 0);
    for (c, t) in [('1', 0), ('2', 1), ('3', 2), ('4', 3), ('d', 0), ('P', 1), ('g', 2), ('H', 3), ('D', 0)] {
        app.on_key(key(KeyCode::Char(c)));
        assert_eq!(app.selected_tab, t);
    }
}

#[test]
fn sort_keys_only_on_process_tab() {
    let mut app = App::new(0, None, None);
    app.on_key(key(KeyCode::Char('s')));
    assert_eq!(app.sort_by, SortBy::Cpu);
    app.on_key(key(KeyCode::Char('r')));
    assert!(app.sort_desc);
    app.selected_tab = 1;
    let expected = [SortBy::Memory, SortBy::Name, SortBy::Pid, SortBy::Risk, SortBy::Cpu];
    for e in expected {
        app.on_key(key(KeyCode::Char('s')));
        assert_eq!(app.sort_by, e);
    }
    app.on_key(key(KeyCode::Char('r')));
    assert!(!app.sort_desc);
    app.on_key(key(KeyCode::Char('r')));
    assert!(app.sort_desc);
}

#[test]
fn other_keys_change_nothing() {
    let mut app = App::new(0, None, None);
    app.selected_tab = 1;
    app.on_key(key(KeyCode::Other));
    app.on_key(key(KeyCode::Char('x')));
    assert_eq!(app.selected_tab, 1);
    assert!(!app.should_quit);
    assert_eq!(app.sort_by, SortBy::Cpu);
}

fn app_with(pids: &[u32]) -> App {
    let mut app = App::new(0, None, None);
    let samples: Vec<Sample> = pids.iter().map(|p| sample(*p, "p", 0.0, 0)).collect();
    app.sort_by = SortBy::Pid;
    app.sort_desc = false;
    app.update_processes(samples, SEC, SEC);
    app
}

#[test]
fn navigation_wraps_around() {
    let mut app = app_with(&[10, 20, 30]);
    assert_eq!(app.selected_row, Some(0));
    assert_eq!(app.selected_pid, Some(10));
    app.next_process();
    assert_eq!(app.selected_row, Some(1));
    assert_eq!(app.selected_pid, Some(20));
    app.next_process();
    app.next_process();
    assert_eq!(app.selected_row, Some(0));
    assert_eq!(app.selected_pid, Some(10));
    app.previous_process();
    assert_eq!(app.selected_row, Some(2));
    assert_eq!(app.selected_pid, Some(30));
    app.next_process();
    assert_eq!(app.selected_row, Some(0));
}

#[test]
fn down_and_up_keys_move_on_process_tab_only() {
    let mut app = app_with(&[1, 2]);
    app.on_key(key(KeyCode::Down));
    assert_eq!(app.selected_row, Some(0));
    app.selected_tab = 1;
    app.on_key(key(KeyCode::Down));
    assert_eq!(app.selected_row, Some(1));
    app.on_key(key(KeyCode::Up));
    assert_eq!(app.selected_row, Some(0));
}

#[test]
fn no_selection_moves_to_top() {
    let mut app = app_with(&[5, 6]);
    app.selected_row = None;
    app.previous_process();
    assert_eq!(app.selected_row, Some(0));
    assert_eq!(app.selected_pid, Some(5));
}

#[test]
fn selected_process_follows_row() {
    let app = app_with(&[7, 8]);
    assert_eq!(app.selected_process().map(|p| p.metadata.pid), Some(7));
    let mut app = app;
    app.selected_row = Some(5);
    assert!(app.selected_process().is_none());
}

#[test]
fn first_report_logs_nothing_then_new_processes_are_reported() {
    let mut app = App::new(0, None, None);
    let logged = app.update_processes(vec![sample(1, "init", 0.0, 0), sample(2, "bash", 0.0, 0)], SEC, SEC);
    assert!(logged.is_empty());
    assert!(app.events.is_empty());
    assert_eq!(app.known_pids.len(), 2);
    let logged = app.update_processes(
        vec![sample(1, "init", 0.0, 0), sample(3, "vim", 0.0, 0), sample(2, "bash", 0.0, 0)],
        2 * SEC,
        2 * SEC + 5,
    );
    assert_eq!(logged.len(), 1);
    assert_eq!(logged[0].event_type, EventType::ProcessStarted);
    assert_eq!(logged[0].pid, 3);
    assert_eq!(logged[0].description, "Started: vim (3)");
    assert_eq!(logged[0].severity, RiskLevel::Low);
    assert_eq!(logged[0].timestamp, 2 * SEC + 5);
    assert_eq!(app.events.len(), 1);
    assert_eq!(app.known_pids.len(), 3);
}

#[test]
fn risky_process_is_reported_with_cooldown() {
    let mut app = App::new(0, None, None);
    let risky = || vec![sample(9, "nmap", 100.0, 2_000_000)];
    let logged = app.update_processes(risky(), 100 * SEC, 100 * SEC);
    assert_eq!(logged.len(), 1);
    assert_eq!(logged[0].event_type, EventType::AnomalyDetected);
    assert_eq!(logged[0].severity, RiskLevel::Critical);
    assert_eq!(logged[0].description, "Risk: nmap [Critical] - Critical CPU: 100.0%");
    // 9.999 s later: still cooling down.
    let logged = app.update_processes(risky(), 110 * SEC - 1, 110 * SEC);
    assert!(logged.is_empty());
    // 10 s later: reported again.
    let logged = app.update_processes(risky(), 110 * SEC, 110 * SEC);
    assert_eq!(logged.len(), 1);
    assert_eq!(app.events.len(), 2);
}

#[test]
fn medium_risk_is_not_reported() {
    let mut app = App::new(0, None, None);
    let logged = app.update_processes(vec![sample(9, "x", 100.0, 0)], SEC, SEC);
    assert!(logged.is_empty());
}

#[test]
fn event_log_keeps_last_hundred() {
    let mut app = App::new(0, None, None);
    app.update_processes(vec![sample(1, "a", 0.0, 0)], SEC, SEC);
    let samples: Vec<Sample> = (1..=150).map(|p| sample(p, "n", 0.0, 0)).collect();
    let logged = app.update_processes(samples, 2 * SEC, 2 * SEC);
    assert_eq!(logged.len(), 149);
    assert_eq!(app.events.len(), 100);
    assert_eq!(app.events[0].pid, 51);
    assert_eq!(app.events[99].pid, 150);
}

#[test]
fn history_keeps_last_sixty_samples() {
    let mut app = App::new(0, None, None);
    for t in 0..70i64 {
        app.update_processes(vec![sample(4, "x", t as f32, 0)], t * SEC, t * SEC);
    }
    let p: &MonitoredProcess = &app.processes[0];
    assert_eq!(p.metrics_history.len(), 60);
    assert_eq!(p.metrics_history[0].0, 10 * SEC);
    assert_eq!(p.metrics_history[59].0, 69 * SEC);
    assert_eq!(f32::from_bits(p.metrics_history[59].1.cpu_usage_bits), 69.0);
}

#[test]
fn processes_are_sorted_by_each_column() {
    let samples = || {
        vec![
            sample(3, "Beta", 10.0, 300),
            sample(1, "alpha", 30.0, 100),
            sample(2, "gamma", 30.0, 200),
        ]
    };
    let mut app = App::new(0, None, None);
    app.update_processes(samples(), SEC, SEC);
    // CPU, descending, pid ascending among equals.
    assert_eq!(pids(&app), vec![1, 2, 3]);
    app.sort_desc = false;
    app.update_processes(samples(), SEC, SEC);
    assert_eq!(pids(&app), vec![3, 1, 2]);
    app.sort_by = SortBy::Memory;
    app.update_processes(samples(), SEC, SEC);
    assert_eq!(pids(&app), vec![1, 2, 3]);
    app.sort_desc = true;
    app.update_processes(samples(), SEC, SEC);
    assert_eq!(pids(&app), vec![3, 2, 1]);
    app.sort_by = SortBy::Name;
    app.update_processes(samples(), SEC, SEC);
    assert_eq!(pids(&app), vec![2, 3, 1]);
    app.sort_desc = false;
    app.update_processes(samples(), SEC, SEC);
    assert_eq!(pids(&app), vec![1, 3, 2]);
    app.sort_by = SortBy::Pid;
    app.update_processes(samples(), SEC, SEC);
    assert_eq!(pids(&app), vec![1, 2, 3]);
    app.sort_desc = true;
    app.update_processes(samples(), SEC, SEC);
    assert_eq!(pids(&app), vec![3, 2, 1]);
}

#[test]
fn risk_sort_breaks_ties_by_pid() {
    let mut app = App::new(0, None, None);
    app.sort_by = SortBy::Risk;
    app.update_processes(
        vec![sample(5, "x", 0.0, 0), sample(2, "nmap", 0.0, 0), sample(1, "y", 0.0, 0)],
        SEC,
        SEC,
    );
    assert_eq!(pids(&app), vec![2, 1, 5]);
}

#[test]
fn selection_follows_pid_across_sorts() {
    let mut app = App::new(0, None, None);
    app.sort_by = SortBy::Pid;
    app.sort_desc = false;
    app.update_processes(vec![sample(1, "a", 0.0, 0), sample(2, "b", 0.0, 0), sample(3, "c", 0.0, 0)], SEC, SEC);
    app.selected_tab = 1;
    app.on_key(key(KeyCode::Down));
    assert_eq!(app.selected_pid, Some(2));
    app.sort_desc = true;
    app.update_processes(vec![sample(1, "a", 0.0, 0), sample(2, "b", 0.0, 0), sample(3, "c", 0.0, 0)], SEC, SEC);
    assert_eq!(pids(&app), vec![3, 2, 1]);
    assert_eq!(app.selected_row, Some(1));
    assert_eq!(app.selected_pid, Some(2));
}

#[test]
fn selection_pulled_back_when_list_shrinks() {
    let mut app = App::new(0, None, None);
    app.sort_by = SortBy::Pid;
    app.sort_desc = false;
    app.update_processes(vec![sample(1, "a", 0.0, 0), sample(2, "b", 0.0, 0), sample(3, "c", 0.0, 0)], SEC, SEC);
    app.selected_row = Some(2);
    app.selected_pid = Some(3);
    app.update_processes(vec![sample(1, "a", 0.0, 0)], SEC, SEC);
    assert_eq!(app.selected_row, Some(0));
    assert_eq!(app.selected_pid, Some(3));
    app.update_processes(vec![], SEC, SEC);
    assert_eq!(app.selected_row, Some(0));
}

#[test]
fn process_keeps_history_and_lineage() {
    let mut app = App::new(0, None, None);
    app.update_processes(vec![sample(1, "a", 0.0, 0)], SEC, SEC);
    app.processes[0].lineage_path = vec![0, 1];
    app.update_processes(vec![sample(1, "renamed", 0.0, 0)], 2 * SEC, 2 * SEC);
    assert_eq!(app.processes[0].metadata.name, "renamed");
    assert_eq!(app.processes[0].metrics_history.len(), 2);
    assert_eq!(app.processes[0].lineage_path, vec![0, 1]);
}

#[test]
fn begin_tick_counts_and_selects() {
    let mut app = app_with(&[4, 5]);
    app.selected_pid = None;
    app.selected_row = Some(1);
    app.begin_tick(77);
    assert_eq!(app.tick_count, 10);
    assert_eq!(app.last_refresh, 77);
    assert_eq!(app.selected_pid, Some(5));
}

#[test]
fn refresh_schedule() {
    let mut app = App::new(0, None, Some(2400));
    assert!(!app.refresh_due(Refresh::GpuStats, SEC - 1));
    assert!(app.refresh_due(Refresh::GpuStats, SEC));
    assert!(!app.refresh_due(Refresh::GpuProcessUsage, 2 * SEC - 1));
    assert!(app.refresh_due(Refresh::GpuProcessMemory, 2 * SEC));
    assert!(!app.refresh_due(Refresh::GpuAdapters, 9 * SEC));
    assert!(app.refresh_due(Refresh::GpuAdapters, 10 * SEC));
    app.mark_refreshed(Refresh::GpuAdapters, 10 * SEC);
    assert_eq!(app.last_gpu_refresh, 10 * SEC);
    assert!(!app.refresh_due(Refresh::GpuAdapters, 15 * SEC));
    assert!(!app.ram_speed_due(5 * SEC));
    assert!(app.ram_speed_due(10 * SEC));
    app.record_ram_speed(None, 10 * SEC);
    assert_eq!(app.ram_speed_mhz, Some(2400));
    assert_eq!(app.last_hw_stats_refresh, 10 * SEC);
    app.record_ram_speed(Some(3200), 11 * SEC);
    assert_eq!(app.ram_speed_mhz, Some(3200));
    let app2 = App::new(0, None, None);
    assert!(app2.ram_speed_due(0));
}

#[test]
fn disk_deltas_are_saturating() {
    let mut app = App::new(0, None, None);
    assert_eq!(app.record_disk_totals(1000, 500), (0, 0));
    assert_eq!(app.record_disk_totals(5000, 400), (4000, 0));
    assert_eq!(app.last_total_disk_read, Some(5000));
    assert_eq!(app.last_total_disk_write, Some(400));
    assert!(app.disk_io_is_best_effort);
}

#[test]
fn disk_totals_sum_and_detect_overflow() {
    let mut a = sample(1, "a", 0.0, 0);
    a.2.disk_read = 10;
    a.2.disk_write = u64::MAX;
    let mut b = sample(2, "b", 0.0, 0);
    b.2.disk_read = 32;
    b.2.disk_write = 1;
    assert_eq!(disk_totals(&vec![a.clone(), b.clone()]), (Some(42), None));
    assert_eq!(disk_totals(&vec![b]), (Some(32), Some(1)));
    assert_eq!(disk_totals(&vec![]), (Some(0), Some(0)));
}

#[test]
fn ensure_row_selected_selects_top() {
    let mut app = app_with(&[1]);
    app.selected_row = None;
    app.ensure_row_selected();
    assert_eq!(app.selected_row, Some(0));
    let mut empty = App::new(0, None, None);
    empty.selected_row = None;
    empty.ensure_row_selected();
    assert_eq!(empty.selected_row, None);
}

#[test]
fn bounded_push_and_truncate() {
    let mut v = vec![1, 2, 3];
    push_capped(&mut v, 4, 3);
    assert_eq!(v, vec![2, 3, 4]);
    push_capped(&mut v, 5, 10);
    assert_eq!(v, vec![2, 3, 4, 5]);
    assert_eq!(truncate_front(vec![1, 2, 3, 4, 5], 2), vec![4, 5]);
    assert_eq!(truncate_front(vec![1, 2], 5), vec![1, 2]);
    assert_eq!(seed_points(7.5f64, 3), vec![(0, 7.5), (1, 7.5), (2, 7.5)]);
}

#[test]
fn whole_seconds_truncate_toward_zero() {
    assert_eq!(seconds_between(10 * SEC - 1, 0), 9);
    assert_eq!(seconds_between(0, 10 * SEC - 1), -9);
    assert_eq!(seconds_between(i64::MAX, i64::MIN), 18_446_744_073);
}

#[test]
fn duplicate_event_copies_all_fields() {
    let e = SystemEvent {
        timestamp: 3,
        event_type: EventType::HighResourceUsage,
        pid: 8,
        description: "d".to_string(),
        severity: RiskLevel::High,
    };
    let d = e.duplicate();
    assert_eq!(d.timestamp, 3);
    assert_eq!(d.event_type, EventType::HighResourceUsage);
    assert_eq!(d.pid, 8);
    assert_eq!(d.description, "d");
    assert_eq!(d.severity, RiskLevel::High);
}

#[test]
fn up_from_a_row_past_an_empty_list_moves_up_without_pid() {
    let mut app = App::new(0, None, None);
    app.selected_row = Some(2);
    app.previous_process();
    assert_eq!(app.selected_row, Some(1));
    assert_eq!(app.selected_pid, None);
}

#[test]
fn keys_that_would_overflow_are_refused() {
    let mut app = App::new(0, None, None);
    app.selected_tab = 1;
    // Nothing listed yet, first row selected: moving is safe.
    assert!(app.accepts_key(key(KeyCode::Down)));
    assert!(app.accepts_key(key(KeyCode::Up)));
    assert!(app.accepts_key(key(KeyCode::Esc)));
    assert!(app.accepts_key(key(KeyCode::Char('s'))));
    app.selected_row = None;
    assert!(app.accepts_key(key(KeyCode::Down)));
    assert!(app.accepts_key(key(KeyCode::Up)));
    app.selected_tab = usize::MAX;
    assert!(!app.accepts_key(key(KeyCode::Tab)));
    assert!(!app.accepts_key(key(KeyCode::Char('\t'))));
    assert!(!app.accepts_key(key(KeyCode::BackTab)));
    assert!(app.accepts_key(key(KeyCode::Char('q'))));
    app.selected_tab = 0;
    assert!(app.accepts_key(key(KeyCode::Tab)));
    assert!(app.accepts_key(key(KeyCode::Down)));
}

#[test]
fn moving_in_an_empty_list_stays_on_the_top_row() {
    let mut app = App::new(0, None, None);
    assert_eq!(app.selected_row, Some(0));
    app.next_process();
    assert_eq!(app.selected_row, Some(0));
    assert_eq!(app.selected_pid, None);
    app.previous_process();
    assert_eq!(app.selected_row, Some(0));
    assert_eq!(app.selected_pid, None);
    app.selected_row = Some(4);
    app.next_process();
    assert_eq!(app.selected_row, Some(0));
    app.selected_tab = 1;
    app.on_key(key(KeyCode::Up));
    assert_eq!(app.selected_row, Some(0));
    app.on_key(key(KeyCode::Down));
    assert_eq!(app.selected_row, Some(0));
    assert_eq!(app.selected_pid, None);
}

#[test]
fn ticks_come_once_a_second() {
    assert!(!tick_due(0));
    assert!(!tick_due(999));
    assert!(tick_due(1000));
    assert!(tick_due(u64::MAX));
}
