//! The records the monitor keeps about processes and what happened to them.
use vstd::prelude::*;

verus! {

/// How risky a process looks, from least to most.
#[derive(Debug, Clone, Copy, PartialEq, Eq, Structural)]
pub enum RiskLevel {
    Low,
    Medium,
    High,
    Critical,
}

/// What a process is: identity and command line.
#[derive(Debug, Clone)]
pub struct ProcessMetadata {
    pub pid: u32,
    pub name: String,
    pub parent_pid: Option<u32>,
    pub command: Vec<String>,
    pub start_time: u64,
    pub uid: Option<String>,
}

/// One sample of what a process consumes.
///
/// CPU usage is the `f32` percentage the system reports, held by its bits
/// (`f32::to_bits`), so that every comparison and text on it is exact.
#[derive(Debug, Clone)]
pub struct ProcessMetrics {
    /// CPU usage in percent, as the bits of an `f32`; may exceed 100 % on
    /// several cores.
    pub cpu_usage_bits: u32,
    /// Resident memory in KiB.
    pub memory_usage: u64,
    /// Virtual memory in KiB.
    pub virtual_memory: u64,
    /// Bytes read from disk since the process started.
    pub disk_read: u64,
    /// Bytes written to disk since the process started.
    pub disk_write: u64,
    pub status: String,
    pub thread_count: Option<u32>,
}

impl ProcessMetrics {
    /// Disk read in KiB (rounded down).
    pub fn disk_read_kib(&self) -> (r: u64)
        ensures
            r == self.disk_read / 1024,
    {
        self.disk_read / 1024
    }

    /// Disk write in KiB (rounded down).
    pub fn disk_write_kib(&self) -> (r: u64)
        ensures
            r == self.disk_write / 1024,
    {
        self.disk_write / 1024
    }
}

/// The verdict of the analyzer on one process.
#[derive(Debug, Clone)]
pub struct ProcessRisk {
    /// 0..=100
    pub score: u8,
    pub level: RiskLevel,
    pub factors: Vec<String>,
}

/// A process as the monitor tracks it across ticks.
#[derive(Debug, Clone)]
pub struct MonitoredProcess {
    pub metadata: ProcessMetadata,
    /// Samples with their time (nanoseconds since the Unix epoch, UTC), oldest first.
    pub metrics_history: Vec<(i64, ProcessMetrics)>,
    pub current_risk: ProcessRisk,
    /// Path from the root to this process.
    pub lineage_path: Vec<u32>,
}

/// What kind of thing an event reports.
#[derive(Debug, Clone, Copy, PartialEq, Eq, Structural)]
pub enum EventType {
    ProcessCreated,
    ProcessStarted,
    ProcessTerminated,
    HighResourceUsage,
    PrivilegeEscalation,
    AnomalyDetected,
}

/// One entry of the event log.
#[derive(Debug, Clone)]
pub struct SystemEvent {
    /// Nanoseconds since the Unix epoch, UTC.
    pub timestamp: i64,
    pub event_type: EventType,
    pub pid: u32,
    pub description: String,
    pub severity: RiskLevel,
}

/// The name `{:?}` gives a risk level.
pub open spec fn risk_level_name(l: RiskLevel) -> Seq<char> {
    match l {
        RiskLevel::Low => seq!['L', 'o', 'w'],
        RiskLevel::Medium => seq!['M', 'e', 'd', 'i', 'u', 'm'],
        RiskLevel::High => seq!['H', 'i', 'g', 'h'],
        RiskLevel::Critical => seq!['C', 'r', 'i', 't', 'i', 'c', 'a', 'l'],
    }
}


/// The views of a list of strings.
pub open spec fn string_views(v: Seq<String>) -> Seq<Seq<char>> {
    v.map_values(|s: String| s@)
}

/// The view of an optional string.
pub open spec fn opt_string_view(o: Option<String>) -> Option<Seq<char>> {
    match o {
        Some(s) => Some(s@),
        None => None,
    }
}

/// `ProcessMetadata` with its strings as character sequences.
pub struct MetadataView {
    pub pid: u32,
    pub name: Seq<char>,
    pub parent_pid: Option<u32>,
    pub command: Seq<Seq<char>>,
    pub start_time: u64,
    pub uid: Option<Seq<char>>,
}

impl View for ProcessMetadata {
    type V = MetadataView;

    open spec fn view(&self) -> MetadataView {
        MetadataView {
            pid: self.pid,
            name: self.name@,
            parent_pid: self.parent_pid,
            command: string_views(self.command@),
            start_time: self.start_time,
            uid: opt_string_view(self.uid),
        }
    }
}

/// `ProcessMetrics` with its strings as character sequences.
pub struct MetricsView {
    pub cpu_usage_bits: u32,
    pub memory_usage: u64,
    pub virtual_memory: u64,
    pub disk_read: u64,
    pub disk_write: u64,
    pub status: Seq<char>,
    pub thread_count: Option<u32>,
}

impl View for ProcessMetrics {
    type V = MetricsView;

    open spec fn view(&self) -> MetricsView {
        MetricsView {
            cpu_usage_bits: self.cpu_usage_bits,
            memory_usage: self.memory_usage,
            virtual_memory: self.virtual_memory,
            disk_read: self.disk_read,
            disk_write: self.disk_write,
            status: self.status@,
            thread_count: self.thread_count,
        }
    }
}

/// `ProcessRisk` with its factors as character sequences.
pub struct RiskView {
    pub score: u8,
    pub level: RiskLevel,
    pub factors: Seq<Seq<char>>,
}

impl View for ProcessRisk {
    type V = RiskView;

    open spec fn view(&self) -> RiskView {
        RiskView { score: self.score, level: self.level, factors: string_views(self.factors@) }
    }
}

/// The view of one timed sample.
pub open spec fn sample_view(s: (i64, ProcessMetrics)) -> (i64, MetricsView) {
    (s.0, s.1@)
}

/// `MonitoredProcess` with every part as its view.
pub struct ProcessView {
    pub metadata: MetadataView,
    pub metrics_history: Seq<(i64, MetricsView)>,
    pub current_risk: RiskView,
    pub lineage_path: Seq<u32>,
}

impl View for MonitoredProcess {
    type V = ProcessView;

    open spec fn view(&self) -> ProcessView {
        ProcessView {
            metadata: self.metadata@,
            metrics_history: self.metrics_history@.map_values(|s: (i64, ProcessMetrics)| sample_view(s)),
            current_risk: self.current_risk@,
            lineage_path: self.lineage_path@,
        }
    }
}

/// The views of a list of processes.
pub open spec fn process_views(s: Seq<MonitoredProcess>) -> Seq<ProcessView> {
    s.map_values(|p: MonitoredProcess| p@)
}

/// `SystemEvent` with its description as a character sequence.
pub struct EventView {
    pub timestamp: i64,
    pub event_type: EventType,
    pub pid: u32,
    pub description: Seq<char>,
    pub severity: RiskLevel,
}

impl View for SystemEvent {
    type V = EventView;

    open spec fn view(&self) -> EventView {
        EventView {
            timestamp: self.timestamp,
            event_type: self.event_type,
            pid: self.pid,
            description: self.description@,
            severity: self.severity,
        }
    }
}

/// The views of a list of events.
pub open spec fn event_views(s: Seq<SystemEvent>) -> Seq<EventView> {
    s.map_values(|e: SystemEvent| e@)
}

impl SystemEvent {
    /// A copy of the event.
    pub fn duplicate(&self) -> (r: SystemEvent)
        ensures
            r@ == self@,
    {
        SystemEvent {
            timestamp: self.timestamp,
            event_type: self.event_type,
            pid: self.pid,
            description: self.description.clone(),
            severity: self.severity,
        }
    }
}

} // verus!
