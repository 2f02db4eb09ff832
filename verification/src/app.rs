//! The monitor's state and the decisions it takes on keys and ticks.
use vstd::prelude::*;
use std::collections::HashSet;

use crate::analyzer::BehaviorAnalyzer;
use crate::models::{MonitoredProcess, SystemEvent};

verus! {

/// The column the process list is sorted by.
#[derive(Debug, Clone, Copy, PartialEq, Eq, Structural)]
pub enum SortBy {
    Cpu,
    Memory,
    Name,
    Pid,
    Risk,
}

/// The column after `s` in the cycle Cpu, Memory, Name, Pid, Risk, Cpu, ...
pub open spec fn next_sort(s: SortBy) -> SortBy {
    match s {
        SortBy::Cpu => SortBy::Memory,
        SortBy::Memory => SortBy::Name,
        SortBy::Name => SortBy::Pid,
        SortBy::Pid => SortBy::Risk,
        SortBy::Risk => SortBy::Cpu,
    }
}

/// The keys the monitor reacts to; everything else is `Other`.
#[derive(Debug, Clone, Copy, PartialEq, Eq, Structural)]
pub enum KeyCode {
    Esc,
    Tab,
    BackTab,
    Up,
    Down,
    Char(char),
    Other,
}

/// A key press: its code and whether Control was held.
#[derive(Debug, Clone, Copy, PartialEq, Eq, Structural)]
pub struct Key {
    pub code: KeyCode,
    pub ctrl: bool,
}

/// The number of tabs: Dashboard, Processes, Graphs, Help.
pub const TAB_COUNT: usize = 4;

/// The tab of the process list.
pub const PROCESSES_TAB: usize = 1;

/// Most events kept in the event log.
pub const MAX_EVENTS: usize = 100;

/// Most samples kept per process.
pub const MAX_METRICS_HISTORY: usize = 60;

/// Most points kept per chart.
pub const MAX_CHART_POINTS: usize = 100;

/// Points a chart starts with.
pub const SEEDED_CHART_POINTS: u64 = 10;

/// Nanoseconds in a second.
pub const NANOS_PER_SEC: i64 = 1_000_000_000;

/// The key quits the monitor: Esc, Ctrl+C, `q` or `Q`.
pub open spec fn is_quit_key(k: Key) -> bool {
    ||| k.code == KeyCode::Esc
    ||| (k.code == KeyCode::Char('c') && k.ctrl)
    ||| k.code == KeyCode::Char('q')
    ||| k.code == KeyCode::Char('Q')
}

/// The tab a key switches to from tab `t`, if it switches tabs.
pub open spec fn tab_after_key(code: KeyCode, t: int) -> Option<int> {
    match code {
        KeyCode::Tab => Some((t + 1) % 4),
        KeyCode::Char(c) => if c == '\t' {
            Some((t + 1) % 4)
        } else if c == '1' || c == 'd' || c == 'D' {
            Some(0)
        } else if c == '2' || c == 'p' || c == 'P' {
            Some(1)
        } else if c == '3' || c == 'g' || c == 'G' {
            Some(2)
        } else if c == '4' || c == 'h' || c == 'H' {
            Some(3)
        } else {
            None
        },
        KeyCode::BackTab => Some((t + 3) % 4),
        _ => None,
    }
}

/// The row selected after moving down from `sel` in a list of `len` rows
/// (wrapping to the top; the top when nothing was selected or the list is
/// empty).
pub open spec fn next_row(sel: Option<usize>, len: nat) -> int {
    match sel {
        Some(i) => if len == 0 || i >= len - 1 {
            0
        } else {
            i + 1
        },
        None => 0,
    }
}

/// The row selected after moving up from `sel` in a list of `len` rows
/// (wrapping to the bottom; the top when nothing was selected, or when the
/// list is empty and the top row was selected).
pub open spec fn previous_row(sel: Option<usize>, len: nat) -> int {
    match sel {
        Some(i) => if i == 0 {
            if len == 0 {
                0
            } else {
                len - 1
            }
        } else {
            i - 1
        },
        None => 0,
    }
}

/// The pid of row `i` of `procs`, if there is such a row.
pub open spec fn pid_at(procs: Seq<MonitoredProcess>, i: int) -> Option<u32> {
    if 0 <= i < procs.len() {
        Some(procs[i].metadata.pid)
    } else {
        None
    }
}

/// Whole seconds from `then` to `now` (both in nanoseconds), truncated
/// toward zero, as `(now - then).num_seconds()` gives them for timestamps.
pub open spec fn whole_seconds_between(now: i64, then: i64) -> int {
    let d = now - then;
    if d >= 0 {
        d / (NANOS_PER_SEC as int)
    } else {
        -((-d) / (NANOS_PER_SEC as int))
    }
}

/// Whole seconds from `then` to `now`, truncated toward zero.
pub fn seconds_between(now: i64, then: i64) -> (r: i64)
    ensures
        r == whole_seconds_between(now, then),
{
    let d: i128 = now as i128 - then as i128;
    if d >= 0 {
        (d / (NANOS_PER_SEC as i128)) as i64
    } else {
        let q: i128 = (-d) / (NANOS_PER_SEC as i128);
        (-q) as i64
    }
}

/// Milliseconds between two ticks: the readings are refreshed once a second.
pub const TICK_RATE_MS: u64 = 1000;

/// A tick is due once `elapsed_ms` whole milliseconds have passed since the last one.
pub fn tick_due(elapsed_ms: u64) -> (r: bool)
    ensures
        r == (elapsed_ms >= TICK_RATE_MS),
{
    elapsed_ms >= TICK_RATE_MS
}

/// `s` with `x` appended, dropping the oldest element when `s` already
/// holds `cap` or more.
pub open spec fn capped_push<T>(s: Seq<T>, x: T, cap: nat) -> Seq<T> {
    if s.len() >= cap {
        s.drop_first().push(x)
    } else {
        s.push(x)
    }
}

/// The last `n` elements of `s` (all of them if there are fewer).
pub open spec fn keep_last<T>(s: Seq<T>, n: nat) -> Seq<T> {
    if s.len() > n {
        s.subrange(s.len() - n, s.len() as int)
    } else {
        s
    }
}

/// Appends `x`, first dropping the oldest element when `v` already holds
/// `cap` or more: the bounded histories of charts and the event log.
pub fn push_capped<T>(v: &mut Vec<T>, x: T, cap: usize)
    requires
        cap > 0,
    ensures
        final(v)@ == capped_push(old(v)@, x, cap as nat),
{
    if v.len() >= cap {
        v.remove(0);
    }
    v.push(x);
    assert(final(v)@ =~= capped_push(old(v)@, x, cap as nat));
}

/// Keeps only the last `n` elements of `v`.
pub fn truncate_front<T>(v: Vec<T>, n: usize) -> (out: Vec<T>)
    ensures
        out@ == keep_last(v@, n as nat),
{
    if v.len() <= n {
        return v;
    }
    let mut v = v;
    let drop = v.len() - n;
    let ghost orig = v@;
    let mut rev: Vec<T> = Vec::new();
    while v.len() > drop
        invariant
            drop <= v.len() <= orig.len(),
            drop == orig.len() - n,
            v@ == orig.subrange(0, v.len() as int),
            rev@ == orig.subrange(v.len() as int, orig.len() as int).reverse(),
        decreases v.len(),
    {
        let x = v.pop().unwrap();
        rev.push(x);
        assert(rev@ =~= orig.subrange(v.len() as int, orig.len() as int).reverse());
        assert(v@ =~= orig.subrange(0, v.len() as int));
    }
    let mut out: Vec<T> = Vec::new();
    while rev.len() > 0
        invariant
            out@ + rev@.reverse() == orig.subrange(drop as int, orig.len() as int),
        decreases rev.len(),
    {
        let x = rev.pop().unwrap();
        out.push(x);
        assert(out@ + rev@.reverse() =~= orig.subrange(drop as int, orig.len() as int));
    }
    assert(out@ =~= out@ + rev@.reverse());
    out
}

/// `n` chart points `(0, value)`, `(1, value)`, ... with which a chart starts.
pub fn seed_points<V: Copy>(value: V, n: u64) -> (out: Vec<(u64, V)>)
    ensures
        out@.len() == n,
        forall|i: int| 0 <= i < n ==> #[trigger] out@[i] == (i as u64, value),
{
    let mut out: Vec<(u64, V)> = Vec::new();
    let mut i: u64 = 0;
    while i < n
        invariant
            i <= n,
            out@.len() == i,
            forall|j: int| 0 <= j < i ==> #[trigger] out@[j] == (j as u64, value),
        decreases n - i,
    {
        out.push((i, value));
        i = i + 1;
    }
    out
}

/// The decision state of the monitor: what is shown, what is selected,
/// the tracked processes and the event log.
pub struct App {
    pub selected_tab: usize,
    pub should_quit: bool,
    pub analyzer: BehaviorAnalyzer,
    pub processes: Vec<MonitoredProcess>,
    pub events: Vec<SystemEvent>,
    pub disk_io_is_best_effort: bool,
    pub uptime: u64,
    /// Ticks so far; the seeded chart points count as ticks 0 to 9.
    pub tick_count: u64,
    /// Times in nanoseconds since the Unix epoch, UTC.
    pub last_refresh: i64,
    pub last_gpu_refresh: i64,
    pub last_gpu_stats_refresh: i64,
    pub last_gpu_proc_refresh: i64,
    pub last_gpu_mem_refresh: i64,
    pub cpu_freq_mhz: Option<u64>,
    pub ram_speed_mhz: Option<u64>,
    pub last_hw_stats_refresh: i64,
    pub last_total_disk_read: Option<u64>,
    pub last_total_disk_write: Option<u64>,
    pub known_pids: HashSet<u32>,
    /// The selected row of the process table.
    pub selected_row: Option<usize>,
    pub selected_pid: Option<u32>,
    pub sort_by: SortBy,
    pub sort_desc: bool,
}

/// The state after moving the selection down one row.
pub open spec fn after_next_process(s: App) -> App {
    let i = next_row(s.selected_row, s.processes@.len());
    App { selected_row: Some(i as usize), selected_pid: pid_at(s.processes@, i), ..s }
}

/// The state after moving the selection up one row.
pub open spec fn after_previous_process(s: App) -> App {
    let i = previous_row(s.selected_row, s.processes@.len());
    App { selected_row: Some(i as usize), selected_pid: pid_at(s.processes@, i), ..s }
}

/// The state after moving to the next sort column.
pub open spec fn after_cycle_sort(s: App) -> App {
    App { sort_by: next_sort(s.sort_by), ..s }
}

/// Keys on which the monitor can act without overflowing: cycling tabs from
/// a tab number at the top of `usize` is left out.
pub open spec fn key_allowed(s: App, k: Key) -> bool {
    !is_quit_key(k) ==> {
        &&& (k.code == KeyCode::Tab || k.code == KeyCode::Char('\t')) ==> s.selected_tab
            < usize::MAX
        &&& k.code == KeyCode::BackTab ==> s.selected_tab <= usize::MAX - 3
    }
}

/// The state after a key press: quit keys quit; tab keys switch tabs; on the
/// process tab Down/Up move the selection, `s` cycles the sort column and
/// `r` reverses the sort direction; every other key changes nothing.
pub open spec fn after_key(s: App, k: Key) -> App {
    if is_quit_key(k) {
        App { should_quit: true, ..s }
    } else if let Some(t) = tab_after_key(k.code, s.selected_tab as int) {
        App { selected_tab: t as usize, ..s }
    } else if s.selected_tab != PROCESSES_TAB {
        s
    } else if k.code == KeyCode::Down {
        after_next_process(s)
    } else if k.code == KeyCode::Up {
        after_previous_process(s)
    } else if k.code == KeyCode::Char('s') {
        after_cycle_sort(s)
    } else if k.code == KeyCode::Char('r') {
        App { sort_desc: !s.sort_desc, ..s }
    } else {
        s
    }
}

impl App {
    /// The state at start-up, at time `now`, with the hardware readings taken then.
    pub fn new(now: i64, cpu_freq_mhz: Option<u64>, ram_speed_mhz: Option<u64>) -> (r: App)
        ensures
            r.selected_tab == 0,
            !r.should_quit,
            r.processes@.len() == 0,
            r.events@.len() == 0,
            r.disk_io_is_best_effort,
            r.uptime == 0,
            r.tick_count == SEEDED_CHART_POINTS - 1,
            r.last_refresh == now,
            r.last_gpu_refresh == now,
            r.last_gpu_stats_refresh == now,
            r.last_gpu_proc_refresh == now,
            r.last_gpu_mem_refresh == now,
            r.last_hw_stats_refresh == now,
            r.cpu_freq_mhz == cpu_freq_mhz,
            r.ram_speed_mhz == ram_speed_mhz,
            r.last_total_disk_read is None,
            r.last_total_disk_write is None,
            r.known_pids@ == Set::<u32>::empty(),
            r.selected_row == Some(0usize),
            r.selected_pid is None,
            r.sort_by == SortBy::Cpu,
            r.sort_desc,
    {
        App {
            selected_tab: 0,
            should_quit: false,
            analyzer: BehaviorAnalyzer::new(),
            processes: Vec::new(),
            events: Vec::new(),
            disk_io_is_best_effort: true,
            uptime: 0,
            tick_count: SEEDED_CHART_POINTS - 1,
            last_refresh: now,
            last_gpu_refresh: now,
            last_gpu_stats_refresh: now,
            last_gpu_proc_refresh: now,
            last_gpu_mem_refresh: now,
            cpu_freq_mhz,
            ram_speed_mhz,
            last_hw_stats_refresh: now,
            last_total_disk_read: None,
            last_total_disk_write: None,
            known_pids: HashSet::new(),
            selected_row: Some(0),
            selected_pid: None,
            sort_by: SortBy::Cpu,
            sort_desc: true,
        }
    }

    /// The process in the selected row, if any.
    pub fn selected_process(&self) -> (r: Option<&MonitoredProcess>)
        ensures
            match self.selected_row {
                Some(i) => if i < self.processes@.len() {
                    r == Some(&self.processes@[i as int])
                } else {
                    r is None
                },
                None => r is None,
            },
    {
        match self.selected_row {
            Some(i) => if i < self.processes.len() {
                Some(&self.processes[i])
            } else {
                None
            },
            None => None,
        }
    }

    /// Moves to the next sort column.
    fn cycle_sort(&mut self)
        ensures
            *final(self) == after_cycle_sort(*old(self)),
    {
        self.sort_by = match self.sort_by {
            SortBy::Cpu => SortBy::Memory,
            SortBy::Memory => SortBy::Name,
            SortBy::Name => SortBy::Pid,
            SortBy::Pid => SortBy::Risk,
            SortBy::Risk => SortBy::Cpu,
        };
    }

    /// Selects the next row (wrapping) and remembers its pid.
    pub fn next_process(&mut self)
        ensures
            *final(self) == after_next_process(*old(self)),
    {
        let i = match self.selected_row {
            Some(i) => {
                if self.processes.len() == 0 || i >= self.processes.len() - 1 {
                    0
                } else {
                    i + 1
                }
            },
            None => 0,
        };
        self.selected_row = Some(i);
        self.selected_pid = if i < self.processes.len() {
            Some(self.processes[i].metadata.pid)
        } else {
            None
        };
    }

    /// Selects the previous row (wrapping) and remembers its pid.
    pub fn previous_process(&mut self)
        ensures
            *final(self) == after_previous_process(*old(self)),
    {
        let i = match self.selected_row {
            Some(i) => {
                if i == 0 {
                    if self.processes.len() == 0 {
                        0
                    } else {
                        self.processes.len() - 1
                    }
                } else {
                    i - 1
                }
            },
            None => 0,
        };
        self.selected_row = Some(i);
        self.selected_pid = if i < self.processes.len() {
            Some(self.processes[i].metadata.pid)
        } else {
            None
        };
    }

    /// Whether the monitor can act on the key without overflowing.
    pub fn accepts_key(&self, key: Key) -> (r: bool)
        ensures
            r == key_allowed(*self, key),
    {
        let quit = match key.code {
            KeyCode::Esc => true,
            KeyCode::Char(c) => (c == 'c' && key.ctrl) || c == 'q' || c == 'Q',
            _ => false,
        };
        if quit {
            return true;
        }
        match key.code {
            KeyCode::Tab => self.selected_tab < usize::MAX,
            KeyCode::Char(c) => c != '\t' || self.selected_tab < usize::MAX,
            KeyCode::BackTab => self.selected_tab <= usize::MAX - 3,
            _ => true,
        }
    }

    /// Reacts to a key press.
    pub fn on_key(&mut self, key: Key)
        requires
            key_allowed(*old(self), key),
        ensures
            *final(self) == after_key(*old(self), key),
    {
        // Quit works on every tab.
        let quit = match key.code {
            KeyCode::Esc => true,
            KeyCode::Char(c) => (c == 'c' && key.ctrl) || c == 'q' || c == 'Q',
            _ => false,
        };
        if quit {
            self.should_quit = true;
            return;
        }
        match key.code {
            KeyCode::Tab => self.selected_tab = (self.selected_tab + 1) % TAB_COUNT,
            KeyCode::BackTab => self.selected_tab = (self.selected_tab + 3) % TAB_COUNT,
            KeyCode::Char(c) => {
                if c == '\t' {
                    self.selected_tab = (self.selected_tab + 1) % TAB_COUNT;
                } else if c == '1' || c == 'd' || c == 'D' {
                    self.selected_tab = 0;
                } else if c == '2' || c == 'p' || c == 'P' {
                    self.selected_tab = 1;
                } else if c == '3' || c == 'g' || c == 'G' {
                    self.selected_tab = 2;
                } else if c == '4' || c == 'h' || c == 'H' {
                    self.selected_tab = 3;
                } else if c == 's' {
                    if self.selected_tab == PROCESSES_TAB {
                        self.cycle_sort();
                    }
                } else if c == 'r' {
                    if self.selected_tab == PROCESSES_TAB {
                        self.sort_desc = !self.sort_desc;
                    }
                }
            },
            KeyCode::Down => {
                if self.selected_tab == PROCESSES_TAB {
                    self.next_process();
                }
            },
            KeyCode::Up => {
                if self.selected_tab == PROCESSES_TAB {
                    self.previous_process();
                }
            },
            _ => {},
        }
    }
}

} // verus!
