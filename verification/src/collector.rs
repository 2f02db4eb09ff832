//! What the monitor makes of the raw readings of the operating system:
//! names, CPU frequency, RAM speed and disk space.
use vstd::prelude::*;
use vstd::string::StringExecFns;

use crate::text::{
    all_digits, chars_of, contains, contains_exec, is_ascii_digit, lowercase, parse_unsigned,
    parse_unsigned_exec, starts_with, starts_with_exec, subvec, trim, trim_exec,
};

verus! {

// ---------------------------------------------------------------------------
// Names
// ---------------------------------------------------------------------------

/// `"{name} {version}"`, with `Unknown` for a missing name and nothing for a
/// missing version.
pub fn os_info_text(name: Option<String>, version: Option<String>) -> (r: String)
    ensures
        r@ == match name {
            Some(n) => n@,
            None => "Unknown"@,
        } + " "@ + match version {
            Some(v) => v@,
            None => ""@,
        },
{
    let mut r = match name {
        Some(n) => n,
        None => String::from_str("Unknown"),
    };
    r.append(" ");
    match version {
        Some(v) => r.append(v.as_str()),
        None => r.append(""),
    }
    r
}

/// The host name, `Unknown` when it is missing.
pub fn host_name_text(name: Option<String>) -> (r: String)
    ensures
        r@ == match name {
            Some(n) => n@,
            None => "Unknown"@,
        },
{
    match name {
        Some(n) => n,
        None => String::from_str("Unknown"),
    }
}

/// Seconds after which the list of disks is read again.
pub const DISK_LIST_REFRESH_SECS: u64 = 60;

/// The list of disks is due to be read again once `elapsed_secs` whole
/// seconds have passed since it was last read: every 60 seconds.
pub fn disk_list_refresh_due(elapsed_secs: u64) -> (r: bool)
    ensures
        r == (elapsed_secs >= DISK_LIST_REFRESH_SECS),
{
    elapsed_secs >= DISK_LIST_REFRESH_SECS
}

/// Total and used space of a disk: the total is at least 1, the used space
/// is total minus available (0 if more is available than the total).
pub fn disk_used_space(total: u64, available: u64) -> (r: (u64, u64))
    ensures
        r.0 == if total >= 1 {
            total
        } else {
            1
        },
        r.1 == if r.0 >= available {
            r.0 - available
        } else {
            0
        },
{
    let total = if total >= 1 {
        total
    } else {
        1
    };
    let used = if total >= available {
        total - available
    } else {
        0
    };
    (total, used)
}

// ---------------------------------------------------------------------------
// Sums and averages
// ---------------------------------------------------------------------------

/// The sum of `s`.
pub open spec fn seq_sum(s: Seq<u64>) -> nat
    decreases s.len(),
{
    if s.len() == 0 {
        0
    } else {
        (seq_sum(s.drop_last()) + s.last()) as nat
    }
}

/// The non-zero elements of `s`, in order.
pub open spec fn nonzero_values(s: Seq<u64>) -> Seq<u64>
    decreases s.len(),
{
    if s.len() == 0 {
        seq![]
    } else if s.last() > 0 {
        nonzero_values(s.drop_last()).push(s.last())
    } else {
        nonzero_values(s.drop_last())
    }
}

/// The mean of `s` rounded down, `None` for no values.
pub open spec fn mean(s: Seq<u64>) -> Option<nat> {
    if s.len() == 0 {
        None
    } else {
        Some(seq_sum(s) / s.len())
    }
}

/// Whether the values add up without overflowing a `u64`.
pub fn sum_fits(v: &Vec<u64>) -> (r: bool)
    ensures
        r == (seq_sum(v@) <= u64::MAX),
{
    let mut acc: u64 = 0;
    let mut i: usize = 0;
    while i < v.len()
        invariant
            i <= v.len(),
            acc as nat == seq_sum(v@.take(i as int)),
        decreases v.len() - i,
    {
        assert(v@.take(i + 1).drop_last() =~= v@.take(i as int));
        if acc > u64::MAX - v[i] {
            proof {
                lemma_seq_sum_prefix(v@, i + 1);
            }
            return false;
        }
        acc = acc + v[i];
        i = i + 1;
    }
    assert(v@.take(v.len() as int) =~= v@);
    true
}

/// A prefix sums to at most the whole.
pub proof fn lemma_seq_sum_prefix(s: Seq<u64>, k: int)
    requires
        0 <= k <= s.len(),
    ensures
        seq_sum(s.take(k)) <= seq_sum(s),
    decreases s.len(),
{
    if k < s.len() {
        lemma_seq_sum_prefix(s.drop_last(), k);
        assert(s.drop_last().take(k) =~= s.take(k));
    } else {
        assert(s.take(k) =~= s);
    }
}

/// The non-zero values of `v`.
pub fn nonzero_exec(v: &Vec<u64>) -> (r: Vec<u64>)
    ensures
        r@ == nonzero_values(v@),
{
    let mut r: Vec<u64> = Vec::new();
    let mut i: usize = 0;
    while i < v.len()
        invariant
            i <= v.len(),
            r@ == nonzero_values(v@.take(i as int)),
        decreases v.len() - i,
    {
        assert(v@.take(i + 1).drop_last() =~= v@.take(i as int));
        if v[i] > 0 {
            r.push(v[i]);
        }
        i = i + 1;
    }
    assert(v@.take(v.len() as int) =~= v@);
    r
}

/// The mean of `v` rounded down, `None` when `v` is empty.
pub fn mean_exec(v: &Vec<u64>) -> (r: Option<u64>)
    requires
        seq_sum(v@) <= u64::MAX,
    ensures
        match r {
            Some(x) => mean(v@) == Some(x as nat),
            None => mean(v@) is None,
        },
{
    if v.len() == 0 {
        return None;
    }
    let mut acc: u64 = 0;
    let mut i: usize = 0;
    while i < v.len()
        invariant
            i <= v.len(),
            seq_sum(v@) <= u64::MAX,
            acc as nat == seq_sum(v@.take(i as int)),
        decreases v.len() - i,
    {
        assert(v@.take(i + 1).drop_last() =~= v@.take(i as int));
        proof {
            lemma_seq_sum_prefix(v@, i + 1);
        }
        acc = acc + v[i];
        i = i + 1;
    }
    assert(v@.take(v.len() as int) =~= v@);
    Some(acc / (v.len() as u64))
}

/// The mean of the non-zero frequencies (MHz), rounded down; `None` when all
/// are zero. This is the fallback from the per-CPU frequencies.
pub fn average_nonzero_mhz(freqs: &Vec<u64>) -> (r: Option<u64>)
    requires
        seq_sum(nonzero_values(freqs@)) <= u64::MAX,
    ensures
        match r {
            Some(x) => mean(nonzero_values(freqs@)) == Some(x as nat),
            None => mean(nonzero_values(freqs@)) is None,
        },
{
    let nz = nonzero_exec(freqs);
    mean_exec(&nz)
}

/// The CPU frequency shown (MHz): the platform's preferred reading (the
/// processor counters, or `cpufreq`) when it gave one, else the mean of the
/// non-zero per-CPU frequencies.
pub fn chosen_cpu_mhz(preferred: Option<u64>, freqs: &Vec<u64>) -> (r: Option<u64>)
    requires
        preferred is None ==> seq_sum(nonzero_values(freqs@)) <= u64::MAX,
    ensures
        match preferred {
            Some(v) => r == Some(v),
            None => match r {
                Some(x) => mean(nonzero_values(freqs@)) == Some(x as nat),
                None => mean(nonzero_values(freqs@)) is None,
            },
        },
{
    match preferred {
        Some(v) => Some(v),
        None => average_nonzero_mhz(freqs),
    }
}

// ---------------------------------------------------------------------------
// CPU frequency from the processor performance counters
// ---------------------------------------------------------------------------

/// One row of the processor performance counters.
pub struct ProcessorFrequencySample {
    pub name: String,
    /// Base frequency, MHz.
    pub processor_frequency: Option<u32>,
    /// Current frequency, MHz.
    pub actual_frequency: Option<u32>,
    /// Current frequency as a percentage of the maximum.
    pub percent_of_maximum_frequency: Option<u32>,
}

/// The frequency a row gives: the current frequency if positive, else base
/// times percentage (rounded to nearest), else the base if positive.
pub open spec fn pick_mhz(r: ProcessorFrequencySample) -> Option<u64> {
    if r.actual_frequency is Some && r.actual_frequency->0 > 0 {
        Some(r.actual_frequency->0 as u64)
    } else if r.processor_frequency is Some && r.percent_of_maximum_frequency is Some
        && r.processor_frequency->0 > 0 && r.percent_of_maximum_frequency->0 > 0 {
        Some(
            ((r.processor_frequency->0 as nat * r.percent_of_maximum_frequency->0 as nat + 50)
                / 100) as u64,
        )
    } else if r.processor_frequency is Some && r.processor_frequency->0 > 0 {
        Some(r.processor_frequency->0 as u64)
    } else {
        None
    }
}

/// The positive frequencies the rows give, in order.
pub open spec fn picked_mhz(rows: Seq<ProcessorFrequencySample>) -> Seq<u64>
    decreases rows.len(),
{
    if rows.len() == 0 {
        seq![]
    } else {
        let prev = picked_mhz(rows.drop_last());
        match pick_mhz(rows.last()) {
            Some(v) => if v > 0 {
                prev.push(v)
            } else {
                prev
            },
            None => prev,
        }
    }
}

/// The index of the first row whose name contains `_Total`.
pub open spec fn total_row(rows: Seq<ProcessorFrequencySample>, k: int) -> Option<int>
    decreases rows.len() - k,
{
    if k < 0 || k >= rows.len() {
        None
    } else if contains(rows[k].name@, "_Total"@) {
        Some(k)
    } else {
        total_row(rows, k + 1)
    }
}

/// The frequency the first `_Total` row gives, if there is such a row and it
/// gives one.
pub open spec fn total_row_mhz(rows: Seq<ProcessorFrequencySample>) -> Option<u64> {
    match total_row(rows, 0) {
        Some(i) => pick_mhz(rows[i]),
        None => None,
    }
}

/// The CPU frequency the counters give: that of the first `_Total` row if it
/// gives one, else the mean of the positive frequencies of all rows.
pub open spec fn counters_mhz(rows: Seq<ProcessorFrequencySample>) -> Option<nat> {
    match total_row_mhz(rows) {
        Some(v) => Some(v as nat),
        None => mean(picked_mhz(rows)),
    }
}

/// The frequency a row gives.
pub fn pick_mhz_exec(r: &ProcessorFrequencySample) -> (out: Option<u64>)
    ensures
        out == pick_mhz(*r),
{
    if let Some(v) = r.actual_frequency {
        if v > 0 {
            return Some(v as u64);
        }
    }
    if let (Some(base), Some(pct)) = (r.processor_frequency, r.percent_of_maximum_frequency) {
        let base = base as u64;
        let pct = pct as u64;
        if base > 0 && pct > 0 {
            assert(base * pct <= 0xFFFF_FFFE_0000_0001) by (nonlinear_arith)
                requires
                    base <= 0xFFFF_FFFF,
                    pct <= 0xFFFF_FFFF,
            ;
            return Some((base * pct + 50) / 100);
        }
    }
    match r.processor_frequency {
        Some(v) => if v > 0 {
            Some(v as u64)
        } else {
            None
        },
        None => None,
    }
}

/// The positive frequencies the rows give.
pub fn picked_mhz_exec(rows: &Vec<ProcessorFrequencySample>) -> (out: Vec<u64>)
    ensures
        out@ == picked_mhz(rows@),
{
    let mut out: Vec<u64> = Vec::new();
    let mut i: usize = 0;
    while i < rows.len()
        invariant
            i <= rows.len(),
            out@ == picked_mhz(rows@.take(i as int)),
        decreases rows.len() - i,
    {
        assert(rows@.take(i + 1).drop_last() =~= rows@.take(i as int));
        if let Some(v) = pick_mhz_exec(&rows[i]) {
            if v > 0 {
                out.push(v);
            }
        }
        i = i + 1;
    }
    assert(rows@.take(rows.len() as int) =~= rows@);
    out
}

/// The frequencies of the rows add up without overflow.
pub open spec fn counters_sum_fits(rows: Seq<ProcessorFrequencySample>) -> bool {
    seq_sum(picked_mhz(rows)) <= u64::MAX
}

/// The frequencies of the rows can be combined without overflow where the
/// answer needs them: a `_Total` row gives the frequency, or the positive
/// frequencies of all rows add up within a `u64`.
pub open spec fn counters_in_range(rows: Seq<ProcessorFrequencySample>) -> bool {
    total_row_mhz(rows) is Some || counters_sum_fits(rows)
}

/// The frequency the first `_Total` row gives.
fn total_row_mhz_exec(rows: &Vec<ProcessorFrequencySample>) -> (r: Option<u64>)
    ensures
        r == total_row_mhz(rows@),
{
    let total_pat = chars_of("_Total");
    let mut k: usize = 0;
    while k < rows.len()
        invariant
            k <= rows.len(),
            total_pat@ == "_Total"@,
            total_row(rows@, 0) == total_row(rows@, k as int),
        decreases rows.len() - k,
    {
        let name = chars_of(rows[k].name.as_str());
        if contains_exec(&name, &total_pat) {
            return pick_mhz_exec(&rows[k]);
        }
        k = k + 1;
    }
    None
}

/// The CPU frequency (MHz) the processor counters give.
pub fn cpu_mhz_from_counters(rows: &Vec<ProcessorFrequencySample>) -> (r: Option<u64>)
    requires
        counters_in_range(rows@),
    ensures
        match r {
            Some(x) => counters_mhz(rows@) == Some(x as nat),
            None => counters_mhz(rows@) is None,
        },
{
    match total_row_mhz_exec(rows) {
        Some(v) => Some(v),
        None => {
            let freqs = picked_mhz_exec(rows);
            mean_exec(&freqs)
        },
    }
}

/// Half a second, in nanoseconds: the counters are not read again sooner.
pub const CPU_FREQ_CACHE_NANOS: u64 = 500_000_000;

/// The cached frequency is used when it exists and was read less than half
/// a second ago.
pub fn cpu_freq_cache_fresh(elapsed_nanos: u64, cached: Option<u64>) -> (r: bool)
    ensures
        r == (elapsed_nanos < CPU_FREQ_CACHE_NANOS && cached is Some),
{
    elapsed_nanos < CPU_FREQ_CACHE_NANOS && cached.is_some()
}

// ---------------------------------------------------------------------------
// CPU frequency from cpufreq
// ---------------------------------------------------------------------------

/// One entry of the CPU directory: its name and, if it could be read, the
/// contents of its current-frequency file (kHz).
pub struct CpuFreqEntry {
    pub name: String,
    pub contents: Option<String>,
}

/// The entry is a CPU: `cpu` followed by ASCII digits only.
pub open spec fn is_cpu_entry_name(name: Seq<char>) -> bool {
    starts_with(name, "cpu"@) && all_digits(name.subrange(3, name.len() as int))
}

/// The frequency (kHz) an entry gives, if it is a CPU whose file reads as a
/// positive number after trimming.
pub open spec fn entry_khz(e: CpuFreqEntry) -> Option<u64> {
    if is_cpu_entry_name(e.name@) && e.contents is Some {
        match parse_unsigned(trim(e.contents->0@), u64::MAX as nat) {
            Some(v) => if v > 0 {
                Some(v as u64)
            } else {
                None
            },
            None => None,
        }
    } else {
        None
    }
}

/// The frequencies (kHz) the entries give, in order.
pub open spec fn entries_khz(es: Seq<CpuFreqEntry>) -> Seq<u64>
    decreases es.len(),
{
    if es.len() == 0 {
        seq![]
    } else {
        let prev = entries_khz(es.drop_last());
        match entry_khz(es.last()) {
            Some(v) => prev.push(v),
            None => prev,
        }
    }
}

/// The mean frequency of the CPUs in MHz (kHz mean rounded down, then
/// rounded to the nearest MHz); `None` when no CPU gives one.
pub open spec fn cpufreq_mhz(es: Seq<CpuFreqEntry>) -> Option<nat> {
    match mean(entries_khz(es)) {
        Some(avg) => Some((avg + 500) / 1000),
        None => None,
    }
}

/// Whether the entry is a CPU.
pub fn is_cpu_entry_name_exec(name: &str) -> (r: bool)
    ensures
        r == is_cpu_entry_name(name@),
{
    let v = chars_of(name);
    let pat = chars_of("cpu");
    proof {
        reveal_strlit("cpu");
    }
    if !starts_with_exec(&v, &pat) {
        return false;
    }
    let mut i: usize = 3;
    while i < v.len()
        invariant
            3 <= i <= v.len(),
            v@ == name@,
            all_digits(v@.subrange(3, i as int)),
        decreases v.len() - i,
    {
        let ch = v[i];
        if !('0' <= ch && ch <= '9') {
            assert(v@.subrange(3, v.len() as int)[i - 3] == ch);
            return false;
        }
        i = i + 1;
        assert forall|k: int| 0 <= k < v@.subrange(3, i as int).len() implies is_ascii_digit(
            #[trigger] v@.subrange(3, i as int)[k],
        ) by {
            if k < i - 4 {
                assert(v@.subrange(3, i as int)[k] == v@.subrange(3, i - 1)[k]);
            }
        }
    }
    true
}

/// The frequency an entry gives.
pub fn entry_khz_exec(e: &CpuFreqEntry) -> (r: Option<u64>)
    ensures
        r == entry_khz(*e),
{
    if !is_cpu_entry_name_exec(e.name.as_str()) {
        return None;
    }
    match &e.contents {
        Some(s) => {
            let v = chars_of(s.as_str());
            let t = trim_exec(&v);
            match parse_unsigned_exec(&t, u64::MAX) {
                Some(x) => if x > 0 {
                    Some(x)
                } else {
                    None
                },
                None => None,
            }
        },
        None => None,
    }
}

/// The frequencies (kHz) the entries give.
pub fn entries_khz_exec(es: &Vec<CpuFreqEntry>) -> (r: Vec<u64>)
    ensures
        r@ == entries_khz(es@),
{
    let mut r: Vec<u64> = Vec::new();
    let mut i: usize = 0;
    while i < es.len()
        invariant
            i <= es.len(),
            r@ == entries_khz(es@.take(i as int)),
        decreases es.len() - i,
    {
        assert(es@.take(i + 1).drop_last() =~= es@.take(i as int));
        if let Some(v) = entry_khz_exec(&es[i]) {
            r.push(v);
        }
        i = i + 1;
    }
    assert(es@.take(es.len() as int) =~= es@);
    r
}

/// The entries' frequencies add up, and round, without overflowing a `u64`.
pub open spec fn cpufreq_in_range(es: Seq<CpuFreqEntry>) -> bool {
    &&& seq_sum(entries_khz(es)) <= u64::MAX
    &&& match mean(entries_khz(es)) {
        Some(avg) => avg + 500 <= u64::MAX,
        None => true,
    }
}

/// Whether the entries' frequencies add up, and round, without overflow.
pub fn cpufreq_in_range_exec(es: &Vec<CpuFreqEntry>) -> (r: bool)
    ensures
        r == cpufreq_in_range(es@),
{
    let khz = entries_khz_exec(es);
    if !sum_fits(&khz) {
        return false;
    }
    match mean_exec(&khz) {
        Some(avg) => avg <= u64::MAX - 500,
        None => true,
    }
}

/// The mean CPU frequency (MHz) the entries give.
pub fn cpufreq_mhz_exec(es: &Vec<CpuFreqEntry>) -> (r: Option<u64>)
    requires
        cpufreq_in_range(es@),
    ensures
        match r {
            Some(x) => cpufreq_mhz(es@) == Some(x as nat),
            None => cpufreq_mhz(es@) is None,
        },
{
    let khz = entries_khz_exec(es);
    match mean_exec(&khz) {
        Some(avg) => Some((avg + 500) / 1000),
        None => None,
    }
}


/// Whether the positive frequencies of the non-zero values add up without
/// overflow.
pub fn nonzero_sum_fits(freqs: &Vec<u64>) -> (r: bool)
    ensures
        r == (seq_sum(nonzero_values(freqs@)) <= u64::MAX),
{
    let nz = nonzero_exec(freqs);
    sum_fits(&nz)
}

/// Whether the counter rows can be combined without overflow.
pub fn counters_in_range_exec(rows: &Vec<ProcessorFrequencySample>) -> (r: bool)
    ensures
        r == counters_in_range(rows@),
{
    if total_row_mhz_exec(rows).is_some() {
        return true;
    }
    let freqs = picked_mhz_exec(rows);
    sum_fits(&freqs)
}

// ---------------------------------------------------------------------------
// RAM speed
// ---------------------------------------------------------------------------

/// One memory module as the hardware inventory reports it (MHz).
pub struct MemoryModuleSample {
    pub speed: Option<u32>,
    pub configured_clock_speed: Option<u32>,
}

/// The larger of two optional values (`None` only if both are).
pub open spec fn max_opt(a: Option<u64>, b: Option<u64>) -> Option<u64> {
    match (a, b) {
        (Some(x), Some(y)) => Some(if x >= y { x } else { y }),
        (Some(x), None) => Some(x),
        (None, y) => y,
    }
}

/// The speed of a module: the configured clock, else the rated speed, if positive.
pub open spec fn module_speed(m: MemoryModuleSample) -> Option<u64> {
    let s = if m.configured_clock_speed is Some {
        m.configured_clock_speed
    } else {
        m.speed
    };
    match s {
        Some(v) => if v > 0 {
            Some(v as u64)
        } else {
            None
        },
        None => None,
    }
}

/// The highest module speed, `None` if no module has one.
pub open spec fn modules_speed(ms: Seq<MemoryModuleSample>) -> Option<u64>
    decreases ms.len(),
{
    if ms.len() == 0 {
        None
    } else {
        max_opt(modules_speed(ms.drop_last()), module_speed(ms.last()))
    }
}

fn max_opt_exec(a: Option<u64>, b: Option<u64>) -> (r: Option<u64>)
    ensures
        r == max_opt(a, b),
{
    match (a, b) {
        (Some(x), Some(y)) => Some(if x >= y { x } else { y }),
        (Some(x), None) => Some(x),
        (None, y) => y,
    }
}

/// The RAM speed (MHz) the inventory of memory modules gives: the highest
/// module speed.
pub fn ram_speed_from_modules(ms: &Vec<MemoryModuleSample>) -> (r: Option<u64>)
    ensures
        r == modules_speed(ms@),
{
    let mut best: Option<u64> = None;
    let mut i: usize = 0;
    while i < ms.len()
        invariant
            i <= ms.len(),
            best == modules_speed(ms@.take(i as int)),
        decreases ms.len() - i,
    {
        assert(ms@.take(i + 1).drop_last() =~= ms@.take(i as int));
        let m = &ms[i];
        let s = if m.configured_clock_speed.is_some() {
            m.configured_clock_speed
        } else {
            m.speed
        };
        let v = match s {
            Some(v) => if v > 0 {
                Some(v as u64)
            } else {
                None
            },
            None => None,
        };
        best = max_opt_exec(best, v);
        i = i + 1;
    }
    assert(ms@.take(ms.len() as int) =~= ms@);
    best
}

/// A line without a final carriage return.
pub open spec fn strip_cr(l: Seq<char>) -> Seq<char> {
    if l.len() > 0 && l.last() == '\r' {
        l.drop_last()
    } else {
        l
    }
}

/// The lines of a text as `str::lines` gives them: split at `\n`, a
/// carriage return before the `\n` removed, no line after a final `\n`.
pub open spec fn text_lines(s: Seq<char>) -> Seq<Seq<char>>
    decreases s.len(),
{
    if s.len() == 0 {
        seq![]
    } else {
        match crate::text::find_from(s, seq!['\n'], 0) {
            Some(i) => if 0 <= i < s.len() {
                seq![strip_cr(s.take(i))] + text_lines(s.skip(i + 1))
            } else {
                seq![s]
            },
            None => seq![s],
        }
    }
}

/// The index of the first ASCII digit at or after `k`.
pub open spec fn first_digit_from(s: Seq<char>, k: int) -> Option<int>
    decreases s.len() - k,
{
    if k < 0 || k >= s.len() {
        None
    } else if is_ascii_digit(s[k]) {
        Some(k)
    } else {
        first_digit_from(s, k + 1)
    }
}

/// The end of the run of ASCII digits starting at `k`.
pub open spec fn digit_run_end(s: Seq<char>, k: int) -> int
    decreases s.len() - k,
{
    if k < 0 || k >= s.len() || !is_ascii_digit(s[k]) {
        k
    } else {
        digit_run_end(s, k + 1)
    }
}

/// The first integer written in `s` (its first run of digits), saturated
/// at `u64::MAX`.
pub open spec fn first_integer(s: Seq<char>) -> Option<u64> {
    match first_digit_from(s, 0) {
        Some(d) => {
            let v = crate::text::digits_value(s.subrange(d, digit_run_end(s, d)));
            Some(
                if v <= u64::MAX {
                    v as u64
                } else {
                    u64::MAX
                },
            )
        },
        None => None,
    }
}

/// The speed a line of the memory inventory gives: after trimming, it must
/// start with `Speed:` or `Configured Memory Speed:`, and its first integer
/// must be positive.
pub open spec fn line_speed(line: Seq<char>) -> Option<u64> {
    let t = trim(line);
    if starts_with(t, "Speed:"@) || starts_with(t, "Configured Memory Speed:"@) {
        match first_integer(t) {
            Some(v) => if v > 0 {
                Some(v)
            } else {
                None
            },
            None => None,
        }
    } else {
        None
    }
}

/// The highest speed the lines give.
pub open spec fn lines_speed(ls: Seq<Seq<char>>) -> Option<u64>
    decreases ls.len(),
{
    if ls.len() == 0 {
        None
    } else {
        max_opt(line_speed(ls[0]), lines_speed(ls.drop_first()))
    }
}

/// The RAM speed (MHz) the text of the memory inventory gives: the highest
/// speed of its lines.
pub open spec fn inventory_speed(s: Seq<char>) -> Option<u64> {
    lines_speed(text_lines(s))
}

/// The first integer in `t`, saturated at `u64::MAX`.
fn first_integer_exec(t: &Vec<char>) -> (r: Option<u64>)
    ensures
        r == first_integer(t@),
{
    let mut k: usize = 0;
    while k < t.len() && !('0' <= t[k] && t[k] <= '9')
        invariant
            k <= t.len(),
            first_digit_from(t@, 0) == first_digit_from(t@, k as int),
        decreases t.len() - k,
    {
        k = k + 1;
    }
    if k == t.len() {
        return None;
    }
    let d = k;
    let mut acc: u64 = 0;
    while k < t.len() && '0' <= t[k] && t[k] <= '9'
        invariant
            d <= k <= t.len(),
            first_digit_from(t@, 0) == Some(d as int),
            digit_run_end(t@, d as int) == digit_run_end(t@, k as int),
            crate::text::all_digits(t@.subrange(d as int, k as int)),
            acc == if crate::text::digits_value(t@.subrange(d as int, k as int)) <= u64::MAX {
                crate::text::digits_value(t@.subrange(d as int, k as int)) as u64
            } else {
                u64::MAX
            },
        decreases t.len() - k,
    {
        let dv: u64 = (t[k] as u64) - 48;
        let ghost prefix = t@.subrange(d as int, k + 1);
        let ghost before = t@.subrange(d as int, k as int);
        assert(prefix.drop_last() =~= before);
        assert(crate::text::digits_value(prefix) == crate::text::digits_value(before) * 10 + dv);
        if acc > (u64::MAX - dv) / 10 {
            assert(crate::text::digits_value(before) * 10 + dv > u64::MAX) by (nonlinear_arith)
                requires
                    acc > (u64::MAX - dv) / 10,
                    dv <= 9,
                    acc <= crate::text::digits_value(before),
            ;
            acc = u64::MAX;
        } else {
            assert(acc * 10 + dv <= u64::MAX) by (nonlinear_arith)
                requires
                    acc <= (u64::MAX - dv) / 10,
                    dv <= 9,
            ;
            assert(crate::text::digits_value(before) <= u64::MAX);
            acc = acc * 10 + dv;
        }
        k = k + 1;
        assert forall|j: int| 0 <= j < prefix.len() implies is_ascii_digit(#[trigger] prefix[j]) by {
            if j < prefix.len() - 1 {
                assert(prefix[j] == before[j]);
            }
        }
    }
    Some(acc)
}

/// The speed a line gives.
fn line_speed_exec(line: &Vec<char>) -> (r: Option<u64>)
    ensures
        r == line_speed(line@),
{
    let t = trim_exec(line);
    let p1 = chars_of("Speed:");
    let p2 = chars_of("Configured Memory Speed:");
    if starts_with_exec(&t, &p1) || starts_with_exec(&t, &p2) {
        match first_integer_exec(&t) {
            Some(v) => if v > 0 {
                Some(v)
            } else {
                None
            },
            None => None,
        }
    } else {
        None
    }
}

/// The RAM speed (MHz) the text of the memory inventory gives: the highest
/// positive speed on its `Speed:` and `Configured Memory Speed:` lines.
pub fn ram_speed_from_inventory(text: &str) -> (r: Option<u64>)
    ensures
        r == inventory_speed(text@),
{
    let nl = chars_of("\n");
    proof {
        reveal_strlit("\n");
    }
    assert(nl@ =~= seq!['\n']);
    let mut rest = chars_of(text);
    let mut best: Option<u64> = None;
    while rest.len() > 0
        invariant
            nl@ == seq!['\n'],
            inventory_speed(text@) == max_opt(best, inventory_speed(rest@)),
        decreases rest.len(),
    {
        let ghost r0 = rest@;
        match crate::text::find_from_exec(&rest, &nl, 0) {
            Some(i) => {
                proof {
                    crate::text::lemma_find_from(r0, seq!['\n'], 0);
                }
                let mut line = subvec(&rest, 0, i);
                let n = line.len();
                if n > 0 && line[n - 1] == '\r' {
                    line.pop();
                }
                assert(line@ == strip_cr(r0.take(i as int)));
                let s = line_speed_exec(&line);
                let ghost tl = text_lines(r0.skip(i + 1));
                assert(text_lines(r0) == seq![strip_cr(r0.take(i as int))] + tl);
                assert((seq![strip_cr(r0.take(i as int))] + tl).drop_first() =~= tl);
                assert(inventory_speed(r0) == max_opt(s, inventory_speed(r0.skip(i + 1))));
                best = max_opt_exec(best, s);
                rest = subvec(&rest, i + 1, rest.len());
                assert(rest@ =~= r0.skip(i + 1));
            },
            None => {
                let s = line_speed_exec(&rest);
                assert(text_lines(r0) == seq![r0]);
                assert(seq![r0].drop_first() =~= Seq::<Seq<char>>::empty());
                assert(lines_speed(Seq::<Seq<char>>::empty()) is None);
                assert(seq![r0][0] == r0);
                assert(lines_speed(seq![r0]) == max_opt(line_speed(r0), lines_speed(seq![r0].drop_first())));
                assert(inventory_speed(r0) == max_opt(s, None));
                best = max_opt_exec(best, s);
                rest = Vec::new();
                assert(text_lines(rest@) =~= Seq::<Seq<char>>::empty());
            },
        }
    }
    best
}

/// Whether the memory inventory was read already, and what it gave: it is
/// read once, on first need.
pub struct RamSpeedProbe {
    pub attempted: bool,
    pub cached: Option<u64>,
}

impl RamSpeedProbe {
    pub fn new() -> (r: RamSpeedProbe)
        ensures
            !r.attempted,
            r.cached is None,
    {
        RamSpeedProbe { attempted: false, cached: None }
    }

    /// The earlier reading, if the inventory was read already.
    pub fn earlier_reading(&self) -> (r: Option<Option<u64>>)
        ensures
            r == if self.attempted {
                Some(self.cached)
            } else {
                None
            },
    {
        if self.attempted {
            Some(self.cached)
        } else {
            None
        }
    }

    /// Records the reading of the inventory.
    pub fn record(&mut self, reading: Option<u64>)
        ensures
            final(self).attempted,
            final(self).cached == reading,
    {
        self.attempted = true;
        self.cached = reading;
    }
}

} // verus!
