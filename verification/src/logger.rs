//! The log line written for each event.
use vstd::prelude::*;
use vstd::string::StringExecFns;

use crate::models::{EventType, RiskLevel, SystemEvent};
use crate::text::{decimal, push_decimal};

verus! {

/// The level an event is logged at.
#[derive(Debug, Clone, Copy, PartialEq, Eq, Structural)]
pub enum LogLevel {
    Info,
    Warn,
    Error,
}

/// A line to log, with its level.
pub struct LogRecord {
    pub level: LogLevel,
    pub message: String,
}

/// The level for a severity: `Low` is info, `Medium` a warning, `High` and
/// `Critical` errors.
pub open spec fn log_level_for(s: RiskLevel) -> LogLevel {
    match s {
        RiskLevel::Low => LogLevel::Info,
        RiskLevel::Medium => LogLevel::Warn,
        RiskLevel::High => LogLevel::Error,
        RiskLevel::Critical => LogLevel::Error,
    }
}

/// The tag of a severity.
pub open spec fn severity_tag(s: RiskLevel) -> Seq<char> {
    match s {
        RiskLevel::Low => "[LOW]"@,
        RiskLevel::Medium => "[MEDIUM]"@,
        RiskLevel::High => "[HIGH]"@,
        RiskLevel::Critical => "[CRITICAL]"@,
    }
}

/// The name `{:?}` gives an event type.
pub open spec fn event_type_name(t: EventType) -> Seq<char> {
    match t {
        EventType::ProcessCreated => "ProcessCreated"@,
        EventType::ProcessStarted => "ProcessStarted"@,
        EventType::ProcessTerminated => "ProcessTerminated"@,
        EventType::HighResourceUsage => "HighResourceUsage"@,
        EventType::PrivilegeEscalation => "PrivilegeEscalation"@,
        EventType::AnomalyDetected => "AnomalyDetected"@,
    }
}

/// The line logged for an event: `[TAG] PID:<pid> - <description> (<type>)`.
pub open spec fn log_line(e: SystemEvent) -> Seq<char> {
    severity_tag(e.severity) + " PID:"@ + decimal(e.pid as nat) + " - "@ + e.description@ + " ("@
        + event_type_name(e.event_type) + ")"@
}

fn severity_tag_str(s: RiskLevel) -> (r: &'static str)
    ensures
        r@ == severity_tag(s),
{
    match s {
        RiskLevel::Low => "[LOW]",
        RiskLevel::Medium => "[MEDIUM]",
        RiskLevel::High => "[HIGH]",
        RiskLevel::Critical => "[CRITICAL]",
    }
}

fn event_type_str(t: EventType) -> (r: &'static str)
    ensures
        r@ == event_type_name(t),
{
    match t {
        EventType::ProcessCreated => "ProcessCreated",
        EventType::ProcessStarted => "ProcessStarted",
        EventType::ProcessTerminated => "ProcessTerminated",
        EventType::HighResourceUsage => "HighResourceUsage",
        EventType::PrivilegeEscalation => "PrivilegeEscalation",
        EventType::AnomalyDetected => "AnomalyDetected",
    }
}

/// Writes events to the log.
pub struct EventLogger;

impl EventLogger {
    /// The record to log for an event.
    pub fn format_event(event: &SystemEvent) -> (r: LogRecord)
        ensures
            r.level == log_level_for(event.severity),
            r.message@ == log_line(*event),
    {
        let level = match event.severity {
            RiskLevel::Low => LogLevel::Info,
            RiskLevel::Medium => LogLevel::Warn,
            RiskLevel::High => LogLevel::Error,
            RiskLevel::Critical => LogLevel::Error,
        };
        let mut m = String::from_str(severity_tag_str(event.severity));
        m.append(" PID:");
        push_decimal(&mut m, event.pid as u64);
        m.append(" - ");
        m.append(event.description.as_str());
        m.append(" (");
        m.append(event_type_str(event.event_type));
        m.append(")");
        LogRecord { level, message: m }
    }
}

} // verus!
