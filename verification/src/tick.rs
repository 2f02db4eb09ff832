//! What one refresh of the process list does to the monitor's state: new
//! processes are reported, tracked processes take the new sample and are
//! scored again, risky ones are reported (at most once per ten seconds each),
//! the list is sorted and the selection follows the selected process.
use vstd::prelude::*;
use vstd::string::StringExecFns;
use std::collections::{HashMap, HashSet};

use crate::analyzer::{BehaviorAnalyzer, risk_view_of};
use crate::app::{
    App, MAX_EVENTS, MAX_METRICS_HISTORY, capped_push, keep_last, push_capped, seconds_between,
    truncate_front, whole_seconds_between,
};
use crate::models::{
    EventType, EventView, MetadataView, MetricsView, MonitoredProcess, ProcessMetadata,
    ProcessMetrics, ProcessView, RiskLevel, SystemEvent, event_views, process_views,
    risk_level_name,
};
use crate::sorting::{is_sorted, sort_processes};
use crate::text::{decimal, push_decimal};

verus! {

broadcast use vstd::std_specs::hash::group_hash_axioms;

/// One process as the collector reports it: pid, metadata, sample.
pub type Sample = (u32, ProcessMetadata, ProcessMetrics);

/// The view of a reported process.
pub type SampleView = (u32, MetadataView, MetricsView);

/// The views of the reported processes.
pub open spec fn sample_views(c: Seq<Sample>) -> Seq<SampleView> {
    c.map_values(|x: Sample| (x.0, x.1@, x.2@))
}

/// The pids of the reported processes.
pub open spec fn sample_pids(c: Seq<SampleView>) -> Set<u32> {
    Set::new(|p: u32| exists|i: int| 0 <= i < c.len() && (#[trigger] c[i]).0 == p)
}

/// Seconds an anomaly of a process is not reported again.
pub const ANOMALY_COOLDOWN_SECS: i64 = 10;

/// How many of the newest events are searched for an earlier anomaly.
pub const ANOMALY_LOOKBACK: usize = 20;

// ---------------------------------------------------------------------------
// Events
// ---------------------------------------------------------------------------

/// The event that reports a process seen for the first time.
pub open spec fn started_event(pid: u32, name: Seq<char>, t: i64) -> EventView {
    EventView {
        timestamp: t,
        event_type: EventType::ProcessStarted,
        pid: pid,
        description: "Started: "@ + name + " ("@ + decimal(pid as nat) + ")"@,
        severity: RiskLevel::Low,
    }
}

/// The events for the reported processes whose pid is not in `known`, in
/// report order.
pub open spec fn started_events(c: Seq<SampleView>, known: Set<u32>, t: i64) -> Seq<EventView>
    decreases c.len(),
{
    if c.len() == 0 {
        seq![]
    } else {
        let prev = started_events(c.drop_last(), known, t);
        if known.contains(c.last().0) {
            prev
        } else {
            prev.push(started_event(c.last().0, c.last().1.name, t))
        }
    }
}

/// `ev` with each of `new` appended in turn by `capped_push`.
pub open spec fn push_all_capped(ev: Seq<EventView>, new: Seq<EventView>, cap: nat) -> Seq<
    EventView,
>
    decreases new.len(),
{
    if new.len() == 0 {
        ev
    } else {
        capped_push(push_all_capped(ev, new.drop_last(), cap), new.last(), cap)
    }
}

/// The first factor of a risk, or the empty text.
pub open spec fn first_factor(f: Seq<Seq<char>>) -> Seq<char> {
    if f.len() > 0 {
        f[0]
    } else {
        seq![]
    }
}

/// The level is `High` or `Critical`.
pub open spec fn is_high_risk(l: RiskLevel) -> bool {
    l == RiskLevel::High || l == RiskLevel::Critical
}

/// The event that reports a risky process.
pub open spec fn anomaly_event(pid: u32, p: ProcessView, t: i64) -> EventView {
    EventView {
        timestamp: t,
        event_type: EventType::AnomalyDetected,
        pid: pid,
        description: "Risk: "@ + p.metadata.name + " ["@ + risk_level_name(p.current_risk.level)
            + "] - "@ + first_factor(p.current_risk.factors),
        severity: p.current_risk.level,
    }
}

/// The time of the newest anomaly event of `pid` in `s`, if any.
pub open spec fn last_anomaly_time(s: Seq<EventView>, pid: u32) -> Option<i64>
    decreases s.len(),
{
    if s.len() == 0 {
        None
    } else if s.last().pid == pid && s.last().event_type == EventType::AnomalyDetected {
        Some(s.last().timestamp)
    } else {
        last_anomaly_time(s.drop_last(), pid)
    }
}

/// The newest `ANOMALY_LOOKBACK` events.
pub open spec fn recent_events(s: Seq<EventView>) -> Seq<EventView> {
    if s.len() > ANOMALY_LOOKBACK {
        s.subrange(s.len() - ANOMALY_LOOKBACK, s.len() as int)
    } else {
        s
    }
}

/// An anomaly of `pid` may be reported at `now`: no anomaly of it is among
/// the recent events, or the newest one is at least ten whole seconds old.
pub open spec fn anomaly_due(events: Seq<EventView>, pid: u32, now: i64) -> bool {
    match last_anomaly_time(recent_events(events), pid) {
        None => true,
        Some(t) => whole_seconds_between(now, t) >= ANOMALY_COOLDOWN_SECS,
    }
}

/// The events and the reported anomalies after the anomaly checks of the
/// processes `built` (rebuilt from `c`, in the same order) starting from `ev`.
pub open spec fn anomaly_fold(
    ev: Seq<EventView>,
    c: Seq<SampleView>,
    built: Seq<ProcessView>,
    now: i64,
) -> (Seq<EventView>, Seq<EventView>)
    decreases c.len(),
{
    if c.len() == 0 || built.len() == 0 {
        (ev, seq![])
    } else {
        let (e1, l1) = anomaly_fold(ev, c.drop_last(), built.drop_last(), now);
        let p = built.last();
        let pid = c.last().0;
        if is_high_risk(p.current_risk.level) && anomaly_due(e1, pid, now) {
            let a = anomaly_event(pid, p, now);
            (capped_push(e1, a, MAX_EVENTS as nat), l1.push(a))
        } else {
            (e1, l1)
        }
    }
}

// ---------------------------------------------------------------------------
// Processes
// ---------------------------------------------------------------------------

/// The tracked processes by pid; when a pid occurs twice the later one counts.
pub open spec fn by_pid(s: Seq<ProcessView>) -> Map<u32, ProcessView>
    decreases s.len(),
{
    if s.len() == 0 {
        Map::empty()
    } else {
        let rest = by_pid(s.drop_first());
        if rest.contains_key(s[0].metadata.pid) {
            rest
        } else {
            rest.insert(s[0].metadata.pid, s[0])
        }
    }
}

/// The tracked process that report `j` continues: the one with its pid, if
/// this is the first report with that pid.
pub open spec fn predecessor(m: Map<u32, ProcessView>, c: Seq<SampleView>, j: int) -> Option<
    ProcessView,
> {
    if (forall|k: int| 0 <= k < j ==> (#[trigger] c[k]).0 != c[j].0) && m.contains_key(c[j].0) {
        Some(m[c[j].0])
    } else {
        None
    }
}

/// A process after taking the sample `m` at `now`: the new metadata, the
/// history of its predecessor with the sample appended (last 60 kept), the
/// risk of the sample, and the predecessor's lineage.
pub open spec fn rebuilt_view(
    md: MetadataView,
    m: MetricsView,
    prev: Option<ProcessView>,
    now: i64,
) -> ProcessView {
    let hist = match prev {
        Some(q) => q.metrics_history,
        None => seq![],
    };
    let lineage = match prev {
        Some(q) => q.lineage_path,
        None => seq![],
    };
    ProcessView {
        metadata: md,
        metrics_history: keep_last(hist.push((now, m)), MAX_METRICS_HISTORY as nat),
        current_risk: risk_view_of(md.name, m),
        lineage_path: lineage,
    }
}

/// The processes rebuilt from the reports `c`, in report order.
pub open spec fn rebuilt_list(c: Seq<SampleView>, m: Map<u32, ProcessView>, now: i64) -> Seq<
    ProcessView,
> {
    Seq::new(c.len(), |j: int| rebuilt_view(c[j].1, c[j].2, predecessor(m, c, j), now))
}

// ---------------------------------------------------------------------------
// Selection
// ---------------------------------------------------------------------------

/// The first row at or after `k` showing `pid`.
pub open spec fn row_of_pid_from(s: Seq<ProcessView>, pid: u32, k: int) -> Option<int>
    decreases s.len() - k,
{
    if k < 0 || k >= s.len() {
        None
    } else if s[k].metadata.pid == pid {
        Some(k)
    } else {
        row_of_pid_from(s, pid, k + 1)
    }
}

/// The selected row after the list became `s`: the row of the selected pid
/// if it is still listed, else the old row; pulled back to the last row if
/// it is past the end.
pub open spec fn restored_row(row: Option<usize>, pid: Option<u32>, s: Seq<ProcessView>) -> Option<
    usize,
> {
    let r1 = match pid {
        Some(p) => match row_of_pid_from(s, p, 0) {
            Some(i) => Some(i as usize),
            None => row,
        },
        None => row,
    };
    match r1 {
        Some(i) => if i >= s.len() {
            Some(
                if s.len() > 0 {
                    (s.len() - 1) as usize
                } else {
                    0usize
                },
            )
        } else {
            Some(i)
        },
        None => None,
    }
}

/// The selected pid after the list became `s`: kept if there was one, else
/// the pid of the selected row.
pub open spec fn restored_pid(row: Option<usize>, pid: Option<u32>, s: Seq<ProcessView>) -> Option<
    u32,
> {
    match pid {
        Some(p) => Some(p),
        None => match restored_row(row, pid, s) {
            Some(i) => if i < s.len() {
                Some(s[i as int].metadata.pid)
            } else {
                None
            },
            None => None,
        },
    }
}

// ---------------------------------------------------------------------------
// Executable steps
// ---------------------------------------------------------------------------

/// The pids of the reported processes.
fn collect_pids(c: &Vec<Sample>) -> (r: HashSet<u32>)
    ensures
        r@ == sample_pids(sample_views(c@)),
{
    let ghost cv = sample_views(c@);
    let mut r: HashSet<u32> = HashSet::new();
    let mut i: usize = 0;
    while i < c.len()
        invariant
            i <= c.len(),
            cv == sample_views(c@),
            r@ == sample_pids(cv.take(i as int)),
        decreases c.len() - i,
    {
        let ghost before = r@;
        r.insert(c[i].0);
        proof {
            assert(cv[i as int].0 == c@[i as int].0);
            assert(r@ == before.insert(c@[i as int].0));
            assert(cv.take(i + 1)[i as int].0 == c@[i as int].0);
            assert forall|p: u32| r@.contains(p) == sample_pids(cv.take(i + 1)).contains(p) by {
                if r@.contains(p) && p != c@[i as int].0 {
                    assert(before.contains(p));
                    let k = choose|k: int| 0 <= k < i && (#[trigger] cv.take(i as int)[k]).0 == p;
                    assert(cv.take(i + 1)[k] == cv.take(i as int)[k]);
                }
                if sample_pids(cv.take(i + 1)).contains(p) {
                    let k = choose|k: int| 0 <= k < i + 1 && (#[trigger] cv.take(i + 1)[k]).0 == p;
                    if k < i {
                        assert(cv.take(i as int)[k] == cv.take(i + 1)[k]);
                    }
                }
            }
            assert(r@ =~= sample_pids(cv.take(i + 1)));
        }
        i = i + 1;
    }
    assert(cv.take(c.len() as int) =~= cv);
    r
}

/// The description of an event of a newly seen process.
fn started_description(name: &String, pid: u32) -> (r: String)
    ensures
        r@ == "Started: "@ + name@ + " ("@ + decimal(pid as nat) + ")"@,
{
    let mut r = String::from_str("Started: ");
    r.append(name.as_str());
    r.append(" (");
    push_decimal(&mut r, pid as u64);
    r.append(")");
    r
}

/// Reports the processes whose pid is not in `known`.
fn report_started(
    events: &mut Vec<SystemEvent>,
    logged: &mut Vec<SystemEvent>,
    c: &Vec<Sample>,
    known: &HashSet<u32>,
    t: i64,
)
    ensures
        event_views(final(events)@) == push_all_capped(
            event_views(old(events)@),
            started_events(sample_views(c@), known@, t),
            MAX_EVENTS as nat,
        ),
        event_views(final(logged)@) == event_views(old(logged)@) + started_events(
            sample_views(c@),
            known@,
            t,
        ),
{
    let ghost cv = sample_views(c@);
    let ghost ev0 = event_views(events@);
    let ghost lg0 = event_views(logged@);
    let mut i: usize = 0;
    assert(cv.take(0) =~= Seq::<SampleView>::empty());
    assert(event_views(logged@) =~= lg0 + started_events(cv.take(0), known@, t));
    while i < c.len()
        invariant
            i <= c.len(),
            cv == sample_views(c@),
            event_views(events@) == push_all_capped(ev0, started_events(cv.take(i as int), known@, t), MAX_EVENTS as nat),
            event_views(logged@) == lg0 + started_events(cv.take(i as int), known@, t),
        decreases c.len() - i,
    {
        let ghost prefix = cv.take(i + 1);
        assert(prefix.drop_last() =~= cv.take(i as int));
        assert(prefix.last() == cv[i as int]);
        let pid = c[i].0;
        if !known.contains(&pid) {
            let ev = SystemEvent {
                timestamp: t,
                event_type: EventType::ProcessStarted,
                pid,
                description: started_description(&c[i].1.name, pid),
                severity: RiskLevel::Low,
            };
            assert(ev@ == started_event(cv[i as int].0, cv[i as int].1.name, t));
            assert(!known@.contains(cv[i as int].0));
            assert(started_events(prefix, known@, t) == started_events(cv.take(i as int), known@, t).push(ev@));
            assert(started_events(prefix, known@, t).drop_last() =~= started_events(cv.take(i as int), known@, t));
            let ghost l_before = logged@;
            logged.push(ev.duplicate());
            assert(event_views(logged@) =~= event_views(l_before).push(ev@));
            let ghost e_before = events@;
            push_capped(events, ev, MAX_EVENTS);
            assert(event_views(events@) =~= capped_push(event_views(e_before), ev@, MAX_EVENTS as nat));
            assert(event_views(logged@) =~= lg0 + started_events(prefix, known@, t));
        } else {
            assert(known@.contains(cv[i as int].0));
            assert(started_events(prefix, known@, t) == started_events(cv.take(i as int), known@, t));
        }
        i = i + 1;
    }
    assert(cv.take(c.len() as int) =~= cv);
}

/// `{:?}` of a risk level.
fn risk_level_str(l: RiskLevel) -> (r: &'static str)
    ensures
        r@ == risk_level_name(l),
{
    match l {
        RiskLevel::Low => {
            proof {
                reveal_strlit("Low");
            }
            "Low"
        },
        RiskLevel::Medium => {
            proof {
                reveal_strlit("Medium");
            }
            "Medium"
        },
        RiskLevel::High => {
            proof {
                reveal_strlit("High");
            }
            "High"
        },
        RiskLevel::Critical => {
            proof {
                reveal_strlit("Critical");
            }
            "Critical"
        },
    }
}

/// Whether an anomaly of `pid` may be reported at `now`.
fn anomaly_due_exec(events: &Vec<SystemEvent>, pid: u32, now: i64) -> (r: bool)
    ensures
        r == anomaly_due(event_views(events@), pid, now),
{
    let ghost ev = event_views(events@);
    let n = events.len();
    let start: usize = if n > ANOMALY_LOOKBACK {
        n - ANOMALY_LOOKBACK
    } else {
        0
    };
    let ghost window = ev.subrange(start as int, n as int);
    assert(recent_events(ev) =~= window);
    let mut k = n;
    assert(ev.subrange(start as int, k as int) =~= window);
    while k > start
        invariant
            start <= k <= n,
            n == events@.len(),
            ev == event_views(events@),
            recent_events(ev) == window,
            last_anomaly_time(window, pid) == last_anomaly_time(ev.subrange(start as int, k as int), pid),
        decreases k,
    {
        let e = &events[k - 1];
        let ghost sub = ev.subrange(start as int, k as int);
        assert(sub.last() == e@);
        assert(sub.drop_last() =~= ev.subrange(start as int, k - 1));
        if e.pid == pid && e.event_type == EventType::AnomalyDetected {
            return seconds_between(now, e.timestamp) >= ANOMALY_COOLDOWN_SECS;
        }
        k = k - 1;
    }
    assert(ev.subrange(start as int, k as int) =~= Seq::<EventView>::empty());
    true
}

/// The description of an anomaly event.
fn anomaly_description(p: &MonitoredProcess) -> (r: String)
    ensures
        r@ == "Risk: "@ + p@.metadata.name + " ["@ + risk_level_name(p@.current_risk.level) + "] - "@
            + first_factor(p@.current_risk.factors),
{
    let mut r = String::from_str("Risk: ");
    r.append(p.metadata.name.as_str());
    r.append(" [");
    r.append(risk_level_str(p.current_risk.level));
    r.append("] - ");
    if p.current_risk.factors.len() > 0 {
        r.append(p.current_risk.factors[0].as_str());
    } else {
        proof {
            reveal_strlit("");
        }
        r.append("");
    }
    r
}

/// The tracked processes by pid (the later one when a pid occurs twice).
fn index_by_pid(old: Vec<MonitoredProcess>) -> (m: HashMap<u32, MonitoredProcess>)
    ensures
        m@.dom() == by_pid(process_views(old@)).dom(),
        forall|k: u32| #[trigger] m@.contains_key(k) ==> m@[k]@ == by_pid(process_views(old@))[k],
{
    let ghost ov = process_views(old@);
    let mut rest = old;
    let mut m: HashMap<u32, MonitoredProcess> = HashMap::new();
    assert(ov.subrange(ov.len() as int, ov.len() as int) =~= Seq::<ProcessView>::empty());
    while rest.len() > 0
        invariant
            rest@.len() <= ov.len(),
            process_views(rest@) == ov.subrange(0, rest@.len() as int),
            m@.dom() == by_pid(ov.subrange(rest@.len() as int, ov.len() as int)).dom(),
            forall|k: u32| #[trigger] m@.contains_key(k) ==> m@[k]@ == by_pid(ov.subrange(rest@.len() as int, ov.len() as int))[k],
        decreases rest.len(),
    {
        let ghost n = rest@.len();
        let p = rest.pop().unwrap();
        let ghost sub = ov.subrange(n - 1, ov.len() as int);
        assert(sub.drop_first() =~= ov.subrange(n as int, ov.len() as int));
        assert(process_views(rest@.push(p)) == ov.subrange(0, n as int));
        assert(sub[0] == ov[n - 1]);
        assert(process_views(rest@.push(p))[n - 1] == p@);
        assert(process_views(rest@) =~= ov.subrange(0, n - 1));
        let pid = p.metadata.pid;
        if !m.contains_key(&pid) {
            m.insert(pid, p);
        }
        assert(m@.dom() =~= by_pid(sub).dom());
    }
    assert(ov.subrange(0, ov.len() as int) =~= ov);
    m
}

/// A tracked process after taking the sample `metrics` at `now`.
fn rebuild_one(
    analyzer: &BehaviorAnalyzer,
    prev: Option<MonitoredProcess>,
    metadata: ProcessMetadata,
    metrics: ProcessMetrics,
    now: i64,
) -> (r: MonitoredProcess)
    ensures
        r@ == rebuilt_view(
            metadata@,
            metrics@,
            match prev {
                Some(q) => Some(q@),
                None => None,
            },
            now,
        ),
{
    let risk = analyzer.analyze_process(&metadata, &metrics);
    let (history, lineage_path) = match prev {
        Some(p) => (p.metrics_history, p.lineage_path),
        None => (Vec::new(), Vec::new()),
    };
    let mut history = history;
    let ghost h0 = history@;
    history.push((now, metrics));
    let history = truncate_front(history, MAX_METRICS_HISTORY);
    let r = MonitoredProcess { metadata, metrics_history: history, current_risk: risk, lineage_path };
    proof {
        let hv = h0.push((now, metrics)).map_values(|s: (i64, ProcessMetrics)| crate::models::sample_view(s));
        let pv_hist = h0.map_values(|s: (i64, ProcessMetrics)| crate::models::sample_view(s));
        assert(hv =~= pv_hist.push((now, metrics@)));
        assert(r@.metrics_history =~= keep_last(hv, MAX_METRICS_HISTORY as nat));
        assert(r@.metadata == metadata@);
        assert(r@.current_risk == risk_view_of(metadata@.name, metrics@));
        assert(r@.lineage_path == match prev { Some(q) => q@.lineage_path, None => Seq::<u32>::empty() });
        assert(r@.metrics_history == keep_last(match prev { Some(q) => q@.metrics_history, None => Seq::empty() }.push((now, metrics@)), MAX_METRICS_HISTORY as nat));
    }
    r
}


/// Reports `p` as an anomaly if it is risky and no recent anomaly of `pid`
/// is younger than ten seconds.
fn report_anomaly(
    events: &mut Vec<SystemEvent>,
    logged: &mut Vec<SystemEvent>,
    pid: u32,
    p: &MonitoredProcess,
    now: i64,
)
    ensures
        ({
            let due = is_high_risk(p@.current_risk.level) && anomaly_due(
                event_views(old(events)@),
                pid,
                now,
            );
            let a = anomaly_event(pid, p@, now);
            &&& event_views(final(events)@) == if due {
                capped_push(event_views(old(events)@), a, MAX_EVENTS as nat)
            } else {
                event_views(old(events)@)
            }
            &&& event_views(final(logged)@) == if due {
                event_views(old(logged)@).push(a)
            } else {
                event_views(old(logged)@)
            }
        }),
{
    let level = p.current_risk.level;
    let is_high = match level {
        RiskLevel::High | RiskLevel::Critical => true,
        _ => false,
    };
    if is_high && anomaly_due_exec(events, pid, now) {
        let ev = SystemEvent {
            timestamp: now,
            event_type: EventType::AnomalyDetected,
            pid,
            description: anomaly_description(p),
            severity: level,
        };
        let ghost l_before = logged@;
        let ghost e_before = events@;
        logged.push(ev.duplicate());
        assert(event_views(logged@) =~= event_views(l_before).push(ev@));
        push_capped(events, ev, MAX_EVENTS);
        assert(event_views(events@) =~= capped_push(event_views(e_before), ev@, MAX_EVENTS as nat));
    }
}

/// The events after a refresh of the process list: new processes reported
/// (unless nothing was known yet), then the anomalies.
pub open spec fn events_after_update(
    ev: Seq<EventView>,
    known: Set<u32>,
    c: Seq<SampleView>,
    built: Seq<ProcessView>,
    now: i64,
    t: i64,
) -> Seq<EventView> {
    let ev1 = if known.is_empty() {
        ev
    } else {
        push_all_capped(ev, started_events(c, known, t), MAX_EVENTS as nat)
    };
    anomaly_fold(ev1, c, built, now).0
}

/// The events reported by a refresh of the process list, in order.
pub open spec fn reported_by_update(
    ev: Seq<EventView>,
    known: Set<u32>,
    c: Seq<SampleView>,
    built: Seq<ProcessView>,
    now: i64,
    t: i64,
) -> Seq<EventView> {
    let started = if known.is_empty() {
        seq![]
    } else {
        started_events(c, known, t)
    };
    let ev1 = if known.is_empty() {
        ev
    } else {
        push_all_capped(ev, started_events(c, known, t), MAX_EVENTS as nat)
    };
    started + anomaly_fold(ev1, c, built, now).1
}

impl App {
    /// Starts a tick at `now`: counts it, records the time and, if no pid is
    /// selected yet, selects the pid of the selected row.
    pub fn begin_tick(&mut self, now: i64)
        requires
            old(self).tick_count < u64::MAX,
        ensures
            *final(self) == (App {
                tick_count: (old(self).tick_count + 1) as u64,
                last_refresh: now,
                selected_pid: match old(self).selected_pid {
                    Some(p) => Some(p),
                    None => match old(self).selected_row {
                        Some(i) => if i < old(self).processes@.len() {
                            Some(old(self).processes@[i as int].metadata.pid)
                        } else {
                            None
                        },
                        None => None,
                    },
                },
                ..*old(self)
            }),
    {
        self.tick_count = self.tick_count + 1;
        self.last_refresh = now;
        if self.selected_pid.is_none() {
            self.selected_pid = match self.selected_process() {
                Some(p) => Some(p.metadata.pid),
                None => None,
            };
        }
    }

    /// Takes a new report of the running processes at `now`: reports the
    /// processes not known before (timestamped `event_time`; on the first
    /// report nothing is reported), rebuilds the tracked list in report order
    /// (each process keeps its history and lineage), reports risky processes,
    /// sorts the list and keeps the selection on the selected pid. Returns
    /// the reported events in order.
    pub fn update_processes(&mut self, collected: Vec<Sample>, now: i64, event_time: i64) -> (logged:
        Vec<SystemEvent>)
        ensures
            ({
                let c = sample_views(collected@);
                let built = rebuilt_list(c, by_pid(process_views(old(self).processes@)), now);
                let procs = process_views(final(self).processes@);
                &&& procs.to_multiset() == built.to_multiset()
                &&& is_sorted(procs, old(self).sort_by, old(self).sort_desc)
                &&& event_views(final(self).events@) == events_after_update(
                    event_views(old(self).events@),
                    old(self).known_pids@,
                    c,
                    built,
                    now,
                    event_time,
                )
                &&& event_views(logged@) == reported_by_update(
                    event_views(old(self).events@),
                    old(self).known_pids@,
                    c,
                    built,
                    now,
                    event_time,
                )
                &&& final(self).known_pids@ == sample_pids(c)
                &&& final(self).selected_row == restored_row(
                    old(self).selected_row,
                    old(self).selected_pid,
                    procs,
                )
                &&& final(self).selected_pid == restored_pid(
                    old(self).selected_row,
                    old(self).selected_pid,
                    procs,
                )
                &&& *final(self) == (App {
                    processes: final(self).processes,
                    events: final(self).events,
                    known_pids: final(self).known_pids,
                    selected_row: final(self).selected_row,
                    selected_pid: final(self).selected_pid,
                    ..*old(self)
                })
            }),
    {
        let ghost c = sample_views(collected@);
        let ghost old_known = self.known_pids@;
        let ghost old_events = event_views(self.events@);
        let ghost old_self = *self;
        let mut logged: Vec<SystemEvent> = Vec::new();

        // 1. Detect new processes.
        let current = collect_pids(&collected);
        if self.known_pids.is_empty() {
            self.known_pids = current;
        } else {
            report_started(&mut self.events, &mut logged, &collected, &self.known_pids, event_time);
            self.known_pids = current;
        }
        let ghost ev1 = event_views(self.events@);
        let ghost lg1 = event_views(logged@);
        assert(lg1 =~= if old_known.is_empty() { seq![] } else { started_events(c, old_known, event_time) });

        // 2. Index the tracked processes by pid.
        let mut old_list: Vec<MonitoredProcess> = Vec::new();
        std::mem::swap(&mut old_list, &mut self.processes);
        let ghost big_m = by_pid(process_views(old_list@));
        let ghost built_spec = rebuilt_list(c, big_m, now);
        let mut existing = index_by_pid(old_list);

        // 3. Rebuild the list in report order.
        let n = collected.len();
        let ghost orig = collected@;
        let mut rest = collected;
        let mut rev: Vec<Sample> = Vec::new();
        while rest.len() > 0
            invariant
                rest@.len() + rev@.len() == n,
                orig.len() == n,
                rest@ == orig.subrange(0, rest@.len() as int),
                forall|i: int| 0 <= i < rev@.len() ==> #[trigger] rev@[i] == orig[n - 1 - i],
            decreases rest.len(),
        {
            let x = rest.pop().unwrap();
            rev.push(x);
            assert(rest@ =~= orig.subrange(0, rest@.len() as int));
        }
        let mut built: Vec<MonitoredProcess> = Vec::new();
        let mut j: usize = 0;
        assert(c.take(0) =~= Seq::<SampleView>::empty());
        assert(built_spec.take(0) =~= Seq::<ProcessView>::empty());
        assert(lg1 + anomaly_fold(ev1, c.take(0), built_spec.take(0), now).1 =~= lg1);
        while rev.len() > 0
            invariant
                j + rev@.len() == n,
                c == sample_views(orig),
                orig.len() == n,
                forall|i: int| 0 <= i < rev@.len() ==> #[trigger] rev@[i] == orig[n - 1 - i],
                built_spec == rebuilt_list(c, big_m, now),
                self.known_pids@ == sample_pids(c),
                *self == (App {
                    events: self.events,
                    processes: self.processes,
                    known_pids: self.known_pids,
                    ..old_self
                }),
                process_views(built@) == built_spec.take(j as int),
                forall|k: u32| #[trigger] existing@.contains_key(k) <==> (big_m.contains_key(k)
                    && !(exists|i: int| 0 <= i < j && (#[trigger] c[i]).0 == k)),
                forall|k: u32| #[trigger] existing@.contains_key(k) ==> existing@[k]@ == big_m[k],
                event_views(self.events@) == anomaly_fold(ev1, c.take(j as int), built_spec.take(j as int), now).0,
                event_views(logged@) == lg1 + anomaly_fold(ev1, c.take(j as int), built_spec.take(j as int), now).1,
            decreases rev.len(),
        {
            let (pid, metadata, metrics) = rev.pop().unwrap();
            assert(orig[j as int] == (pid, metadata, metrics));
            assert(c[j as int] == (pid, metadata@, metrics@));
            let prev = existing.remove(&pid);
            proof {
                let pred = predecessor(big_m, c, j as int);
                if forall|i: int| 0 <= i < j ==> (#[trigger] c[i]).0 != c[j as int].0 {
                    assert(!(exists|i: int| 0 <= i < j && (#[trigger] c[i]).0 == pid));
                } else {
                    let i = choose|i: int| 0 <= i < j && (#[trigger] c[i]).0 == c[j as int].0;
                    assert(c[i].0 == pid);
                }
                if prev is Some {
                    assert(pred == Some(prev->0@));
                } else {
                    assert(pred is None);
                }
            }
            let proc = rebuild_one(&self.analyzer, prev, metadata, metrics, now);
            assert(proc@ == built_spec[j as int]);
            let ghost ev_before = event_views(self.events@);
            report_anomaly(&mut self.events, &mut logged, pid, &proc, now);
            let ghost built_before = built@;
            built.push(proc);
            proof {
                assert(process_views(built@) =~= built_spec.take(j + 1));
                assert(c.take(j + 1).drop_last() =~= c.take(j as int));
                assert(built_spec.take(j + 1).drop_last() =~= built_spec.take(j as int));
                assert(c.take(j + 1).last() == c[j as int]);
                assert(built_spec.take(j + 1).last() == built_spec[j as int]);
                let f0 = anomaly_fold(ev1, c.take(j as int), built_spec.take(j as int), now);
                assert(lg1 + f0.1.push(anomaly_event(pid, proc@, now)) =~= (lg1 + f0.1).push(anomaly_event(pid, proc@, now)));
                assert forall|k: u32| #[trigger] existing@.contains_key(k) <==> (big_m.contains_key(k)
                    && !(exists|i: int| 0 <= i < j + 1 && (#[trigger] c[i]).0 == k)) by {
                    if existing@.contains_key(k) {
                        assert(k != pid);
                    }
                    if big_m.contains_key(k) && !(exists|i: int| 0 <= i < j + 1 && (#[trigger] c[i]).0 == k) {
                        assert(k != c[j as int].0);
                    }
                }
            }
            j = j + 1;
        }
        assert(c.take(n as int) =~= c);
        assert(built_spec.take(n as int) =~= built_spec);

        // 4. Sort.
        let sorted = sort_processes(built, self.sort_by, self.sort_desc);
        self.processes = sorted;

        // 5. Keep the selection on the selected pid.
        self.restore_selection();
        proof {
            let procs = process_views(self.processes@);
            assert(procs.to_multiset() == built_spec.to_multiset());
            assert(ev1 == if old_known.is_empty() { old_events } else { push_all_capped(old_events, started_events(c, old_known, event_time), MAX_EVENTS as nat) });
            assert(event_views(self.events@) == events_after_update(old_events, old_known, c, built_spec, now, event_time));
            assert(event_views(logged@) == reported_by_update(old_events, old_known, c, built_spec, now, event_time));
            assert(self.known_pids@ == sample_pids(c));
        }
        logged
    }

    /// Moves the selection to the row of the selected pid (if listed), pulls
    /// it back into the list, and fills in the selected pid if there is none.
    fn restore_selection(&mut self)
        ensures
            final(self).selected_row == restored_row(
                old(self).selected_row,
                old(self).selected_pid,
                process_views(old(self).processes@),
            ),
            final(self).selected_pid == restored_pid(
                old(self).selected_row,
                old(self).selected_pid,
                process_views(old(self).processes@),
            ),
            *final(self) == (App {
                selected_row: final(self).selected_row,
                selected_pid: final(self).selected_pid,
                ..*old(self)
            }),
    {
        let ghost s = process_views(self.processes@);
        if let Some(pid) = self.selected_pid {
            let mut k: usize = 0;
            while k < self.processes.len()
                invariant
                    k <= self.processes@.len(),
                    s == process_views(self.processes@),
                    row_of_pid_from(s, pid, 0) == row_of_pid_from(s, pid, k as int),
                ensures
                    k <= self.processes@.len(),
                    k < self.processes@.len() ==> row_of_pid_from(s, pid, 0) == Some(k as int),
                    k == self.processes@.len() ==> row_of_pid_from(s, pid, 0) is None,
                decreases self.processes@.len() - k,
            {
                if self.processes[k].metadata.pid == pid {
                    break;
                }
                k = k + 1;
            }
            if k < self.processes.len() {
                self.selected_row = Some(k);
            }
        }
        if let Some(selected) = self.selected_row {
            if selected >= self.processes.len() {
                self.selected_row = Some(
                    if self.processes.len() > 0 {
                        self.processes.len() - 1
                    } else {
                        0
                    },
                );
            }
        }
        if self.selected_pid.is_none() {
            self.selected_pid = match self.selected_process() {
                Some(p) => Some(p.metadata.pid),
                None => None,
            };
        }
    }
}


// ---------------------------------------------------------------------------
// Readings refreshed on their own schedule
// ---------------------------------------------------------------------------

/// Readings that are refreshed less often than every tick.
#[derive(Debug, Clone, Copy, PartialEq, Eq, Structural)]
pub enum Refresh {
    /// The list of graphics adapters.
    GpuAdapters,
    /// Overall GPU load and memory.
    GpuStats,
    /// GPU load per process.
    GpuProcessUsage,
    /// GPU memory per process.
    GpuProcessMemory,
}

/// Seconds between two refreshes of a reading.
pub open spec fn refresh_period(r: Refresh) -> int {
    match r {
        Refresh::GpuAdapters => 10,
        Refresh::GpuStats => 1,
        Refresh::GpuProcessUsage => 2,
        Refresh::GpuProcessMemory => 2,
    }
}

/// When a reading was last refreshed.
pub open spec fn last_refreshed(s: App, r: Refresh) -> i64 {
    match r {
        Refresh::GpuAdapters => s.last_gpu_refresh,
        Refresh::GpuStats => s.last_gpu_stats_refresh,
        Refresh::GpuProcessUsage => s.last_gpu_proc_refresh,
        Refresh::GpuProcessMemory => s.last_gpu_mem_refresh,
    }
}

/// Seconds between two readings of the RAM speed.
pub const RAM_SPEED_PERIOD_SECS: i64 = 10;

/// Disk totals of the reported processes: bytes read, bytes written.
pub open spec fn disk_read_total(c: Seq<SampleView>) -> nat
    decreases c.len(),
{
    if c.len() == 0 {
        0
    } else {
        (disk_read_total(c.drop_last()) + c.last().2.disk_read) as nat
    }
}

/// Bytes written by the reported processes.
pub open spec fn disk_write_total(c: Seq<SampleView>) -> nat
    decreases c.len(),
{
    if c.len() == 0 {
        0
    } else {
        (disk_write_total(c.drop_last()) + c.last().2.disk_write) as nat
    }
}

/// Bytes moved since the previous total (0 without one, or if the total fell).
pub open spec fn disk_delta(total: u64, previous: Option<u64>) -> u64 {
    match previous {
        Some(p) => if total >= p {
            (total - p) as u64
        } else {
            0
        },
        None => 0,
    }
}

/// The disk totals of the reported processes, each `None` if it does not
/// fit a `u64`.
pub fn disk_totals(c: &Vec<Sample>) -> (r: (Option<u64>, Option<u64>))
    ensures
        match r.0 {
            Some(t) => disk_read_total(sample_views(c@)) == t,
            None => disk_read_total(sample_views(c@)) > u64::MAX,
        },
        match r.1 {
            Some(t) => disk_write_total(sample_views(c@)) == t,
            None => disk_write_total(sample_views(c@)) > u64::MAX,
        },
{
    let ghost cv = sample_views(c@);
    let mut read: Option<u64> = Some(0);
    let mut write: Option<u64> = Some(0);
    let mut i: usize = 0;
    while i < c.len()
        invariant
            i <= c.len(),
            cv == sample_views(c@),
            match read {
                Some(t) => disk_read_total(cv.take(i as int)) == t,
                None => disk_read_total(cv.take(i as int)) > u64::MAX,
            },
            match write {
                Some(t) => disk_write_total(cv.take(i as int)) == t,
                None => disk_write_total(cv.take(i as int)) > u64::MAX,
            },
        decreases c.len() - i,
    {
        assert(cv.take(i + 1).drop_last() =~= cv.take(i as int));
        assert(cv.take(i + 1).last() == cv[i as int]);
        let m = &c[i].2;
        read = match read {
            Some(t) => if t <= u64::MAX - m.disk_read {
                Some(t + m.disk_read)
            } else {
                None
            },
            None => None,
        };
        write = match write {
            Some(t) => if t <= u64::MAX - m.disk_write {
                Some(t + m.disk_write)
            } else {
                None
            },
            None => None,
        };
        i = i + 1;
    }
    assert(cv.take(c.len() as int) =~= cv);
    (read, write)
}

impl App {
    /// Whether the reading is due at `now`: at least its period has passed
    /// (in whole seconds) since it was last refreshed.
    pub fn refresh_due(&self, what: Refresh, now: i64) -> (r: bool)
        ensures
            r == (whole_seconds_between(now, last_refreshed(*self, what)) >= refresh_period(what)),
    {
        let (last, period): (i64, i64) = match what {
            Refresh::GpuAdapters => (self.last_gpu_refresh, 10),
            Refresh::GpuStats => (self.last_gpu_stats_refresh, 1),
            Refresh::GpuProcessUsage => (self.last_gpu_proc_refresh, 2),
            Refresh::GpuProcessMemory => (self.last_gpu_mem_refresh, 2),
        };
        seconds_between(now, last) >= period
    }

    /// Records that the reading was refreshed at `now`.
    pub fn mark_refreshed(&mut self, what: Refresh, now: i64)
        ensures
            *final(self) == match what {
                Refresh::GpuAdapters => App { last_gpu_refresh: now, ..*old(self) },
                Refresh::GpuStats => App { last_gpu_stats_refresh: now, ..*old(self) },
                Refresh::GpuProcessUsage => App { last_gpu_proc_refresh: now, ..*old(self) },
                Refresh::GpuProcessMemory => App { last_gpu_mem_refresh: now, ..*old(self) },
            },
    {
        match what {
            Refresh::GpuAdapters => self.last_gpu_refresh = now,
            Refresh::GpuStats => self.last_gpu_stats_refresh = now,
            Refresh::GpuProcessUsage => self.last_gpu_proc_refresh = now,
            Refresh::GpuProcessMemory => self.last_gpu_mem_refresh = now,
        }
    }

    /// Whether the RAM speed is read at `now`: when it is unknown, or ten
    /// seconds after the last reading.
    pub fn ram_speed_due(&self, now: i64) -> (r: bool)
        ensures
            r == (self.ram_speed_mhz is None || whole_seconds_between(now, self.last_hw_stats_refresh)
                >= RAM_SPEED_PERIOD_SECS),
    {
        self.ram_speed_mhz.is_none() || seconds_between(now, self.last_hw_stats_refresh)
            >= RAM_SPEED_PERIOD_SECS
    }

    /// Records a reading of the RAM speed taken at `now`; a failed reading
    /// keeps the earlier value.
    pub fn record_ram_speed(&mut self, reading: Option<u64>, now: i64)
        ensures
            *final(self) == (App {
                ram_speed_mhz: if reading is Some {
                    reading
                } else {
                    old(self).ram_speed_mhz
                },
                last_hw_stats_refresh: now,
                ..*old(self)
            }),
    {
        self.ram_speed_mhz = match reading {
            Some(v) => Some(v),
            None => self.ram_speed_mhz,
        };
        self.last_hw_stats_refresh = now;
    }

    /// Takes the disk totals of this tick and returns the bytes read and
    /// written since the previous tick (best effort: summed over processes).
    pub fn record_disk_totals(&mut self, total_read: u64, total_write: u64) -> (r: (u64, u64))
        ensures
            r.0 == disk_delta(total_read, old(self).last_total_disk_read),
            r.1 == disk_delta(total_write, old(self).last_total_disk_write),
            *final(self) == (App {
                disk_io_is_best_effort: true,
                last_total_disk_read: Some(total_read),
                last_total_disk_write: Some(total_write),
                ..*old(self)
            }),
    {
        self.disk_io_is_best_effort = true;
        let delta_read = match self.last_total_disk_read {
            Some(prev) => total_read.saturating_sub(prev),
            None => 0,
        };
        let delta_write = match self.last_total_disk_write {
            Some(prev) => total_write.saturating_sub(prev),
            None => 0,
        };
        self.last_total_disk_read = Some(total_read);
        self.last_total_disk_write = Some(total_write);
        (delta_read, delta_write)
    }

    /// Selects the first row when nothing is selected and the list is not
    /// empty (before the process table is drawn).
    pub fn ensure_row_selected(&mut self)
        ensures
            *final(self) == if old(self).selected_row is None && old(self).processes@.len() > 0 {
                App { selected_row: Some(0usize), ..*old(self) }
            } else {
                *old(self)
            },
    {
        if self.selected_row.is_none() && self.processes.len() > 0 {
            self.selected_row = Some(0);
        }
    }
}

} // verus!
