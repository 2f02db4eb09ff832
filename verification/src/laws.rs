//! Properties of the monitor that hold for all inputs.
use vstd::prelude::*;

use vstd::arithmetic::power2::{lemma_pow2_adds, lemma_pow2_pos, pow2};

use crate::analyzer::{
    MEM_BASELINE_KIB, capped_cpu, clamp_score, level_for_score, memory_reading, min_nat,
    risk_score,
};
use crate::float::{
    exp_field, frac_field, lemma_magnitude_increasing, lemma_sign_cleared, magnitude, order_key,
    significand, unit, value_units,
};
use crate::app::{
    App, Key, KeyCode, after_key, capped_push, is_quit_key, next_row, next_sort, previous_row,
    tab_after_key,
};
use crate::app::SortBy;
use crate::models::{EventType, EventView, ProcessView, RiskLevel};
use crate::sorting::{in_order, is_sorted, lemma_lex_compare_antisymmetric, text_key};
use crate::text::{
    all_digits, contains, decimal, digit_char, digit_value, digits_value, find_from, is_ascii_digit,
    matches_at, parse_unsigned,
};
use crate::tick::{
    SampleView, anomaly_due, anomaly_event, anomaly_fold, events_after_update, last_anomaly_time,
    push_all_capped, recent_events, restored_row, row_of_pid_from, started_events,
};

verus! {

// ---------------------------------------------------------------------------
// Risk scoring
// ---------------------------------------------------------------------------

/// The position of a level in Low < Medium < High < Critical.
pub open spec fn level_rank(l: RiskLevel) -> nat {
    match l {
        RiskLevel::Low => 0,
        RiskLevel::Medium => 1,
        RiskLevel::High => 2,
        RiskLevel::Critical => 3,
    }
}

/// A score never falls when its total grows.
proof fn lemma_clamp_monotone(t1: int, t2: int, u: int)
    requires
        t1 <= t2,
        u > 0,
    ensures
        clamp_score(t1, u) <= clamp_score(t2, u),
{
    vstd::arithmetic::div_mod::lemma_div_is_ordered(t1, t2, u);
}

/// The capped CPU reading is at most 100 %.
proof fn lemma_capped_cpu_at_most_100(b: u32)
    ensures
        capped_cpu(b) matches Some(c) ==> c <= 100 * unit(),
{
}

/// A risk score is at most 90: 40 for CPU, 30 for memory, 20 for the name.
pub proof fn law_score_at_most_90(cpu_bits: u32, memory_kib: nat, suspicious: bool)
    ensures
        risk_score(capped_cpu(cpu_bits), memory_reading(memory_kib), suspicious) <= 90,
{
    lemma_capped_cpu_at_most_100(cpu_bits);
    lemma_pow2_adds(20, 129);
    lemma_pow2_pos(149);
    vstd::arithmetic::power2::lemma2_to64();
    if let Some(c) = capped_cpu(cpu_bits) {
        let m = min_nat(memory_reading(memory_kib), MEM_BASELINE_KIB as nat);
        let t = 2 * c + 150 * m * pow2(129) + if suspicious { 100 * pow2(149) } else { 0 };
        let u: int = (5 * pow2(149)) as int;
        assert(t <= 90 * u) by (nonlinear_arith)
            requires
                c <= 100 * pow2(149),
                m <= 0x10_0000,
                pow2(149) == pow2(20) * pow2(129),
                pow2(20) == 0x10_0000,
                pow2(129) > 0,
                t == 2 * c + 150 * m * pow2(129) + if suspicious { 100 * pow2(149) } else { 0 },
                u == 5 * pow2(149),
        ;
        vstd::arithmetic::div_mod::lemma_div_is_ordered(t, 90 * u, u);
        vstd::arithmetic::div_mod::lemma_div_multiples_vanish(90, u);
    }
}

/// More CPU, more memory or a suspicious name never lowers the score.
pub proof fn law_score_monotone(c1: int, m1: nat, s1: bool, c2: int, m2: nat, s2: bool)
    requires
        c1 <= c2,
        m1 <= m2,
        s1 ==> s2,
    ensures
        risk_score(Some(c1), m1, s1) <= risk_score(Some(c2), m2, s2),
{
    lemma_pow2_pos(129);
    lemma_pow2_pos(149);
    let a1 = min_nat(m1, MEM_BASELINE_KIB as nat);
    let a2 = min_nat(m2, MEM_BASELINE_KIB as nat);
    assert(150 * a1 * pow2(129) <= 150 * a2 * pow2(129)) by (nonlinear_arith)
        requires
            a1 <= a2,
            pow2(129) > 0,
    ;
    lemma_clamp_monotone(
        2 * c1 + 150 * a1 * pow2(129) + if s1 { 100 * pow2(149) } else { 0 },
        2 * c2 + 150 * a2 * pow2(129) + if s2 { 100 * pow2(149) } else { 0 },
        (5 * pow2(149)) as int,
    );
}

/// A higher score never gives a lower level.
pub proof fn law_level_monotone(s1: nat, s2: nat)
    requires
        s1 <= s2,
    ensures
        level_rank(level_for_score(s1)) <= level_rank(level_for_score(s2)),
{
}

/// A process is at critical risk exactly when it earns every point: CPU at
/// least 100 % (or a NaN reading, which `min` turns into 100 %), at least
/// 1 GiB of memory as its `f32` reading holds it, and a suspicious name.
pub proof fn law_critical_needs_all_three(cpu_bits: u32, memory_kib: nat, suspicious: bool)
    ensures
        level_for_score(risk_score(capped_cpu(cpu_bits), memory_reading(memory_kib), suspicious))
            == RiskLevel::Critical <==> (capped_cpu(cpu_bits) == Some((100 * unit()) as int)
            && memory_reading(memory_kib) >= MEM_BASELINE_KIB && suspicious),
{
    law_score_at_most_90(cpu_bits, memory_kib, suspicious);
    lemma_capped_cpu_at_most_100(cpu_bits);
    lemma_pow2_adds(20, 129);
    lemma_pow2_pos(149);
    vstd::arithmetic::power2::lemma2_to64();
    if let Some(c) = capped_cpu(cpu_bits) {
        let m = min_nat(memory_reading(memory_kib), MEM_BASELINE_KIB as nat);
        let t = 2 * c + 150 * m * pow2(129) + if suspicious { 100 * pow2(149) } else { 0 };
        let u: int = (5 * pow2(149)) as int;
        if !(c == 100 * unit() && memory_reading(memory_kib) >= MEM_BASELINE_KIB && suspicious) {
            assert(t < 90 * u) by (nonlinear_arith)
                requires
                    c <= 100 * pow2(149),
                    m <= 0x10_0000,
                    pow2(149) == pow2(20) * pow2(129),
                    pow2(20) == 0x10_0000,
                    pow2(129) > 0,
                    t == 2 * c + 150 * m * pow2(129) + if suspicious { 100 * pow2(149) } else { 0 },
                    u == 5 * pow2(149),
                    !(c == 100 * pow2(149) && m == 0x10_0000 && suspicious),
            ;
            assert(t / u < 90) by (nonlinear_arith)
                requires
                    t < 90 * u,
                    u > 0,
            ;
        } else {
            assert(t == 90 * u) by (nonlinear_arith)
                requires
                    c == 100 * pow2(149),
                    m == 0x10_0000,
                    pow2(149) == pow2(20) * pow2(129),
                    pow2(20) == 0x10_0000,
                    t == 2 * c + 150 * m * pow2(129) + 100 * pow2(149),
                    u == 5 * pow2(149),
            ;
            vstd::arithmetic::div_mod::lemma_div_multiples_vanish(90, u);
        }
    }
}

/// A finite non-negative reading lies below the bits of infinity.
proof fn lemma_finite_bits(x: u32)
    requires
        x < 0x8000_0000,
        exp_field(x) != 255,
    ensures
        x < 0x7F80_0000,
{
    vstd::arithmetic::div_mod::lemma_fundamental_div_mod(x as int, 0x80_0000);
    assert(x / 0x80_0000 < 256);
}

/// Sorting by CPU orders readings as comparing the `f32` values does: for
/// finite readings one order key is below another exactly when its value is
/// below the other's, and the keys are equal exactly when the values are
/// (the two zeros included); the infinities lie beyond every finite value.
pub proof fn law_cpu_order_matches_values(a: u32, b: u32)
    requires
        exp_field(a) != 255,
        exp_field(b) != 255,
    ensures
        order_key(a) < order_key(b) <==> value_units(a) < value_units(b),
        order_key(a) == order_key(b) <==> value_units(a) == value_units(b),
        order_key(0xFF80_0000) < order_key(a) < order_key(0x7F80_0000),
{
    let ua: u32 = if a >= 0x8000_0000 { (a - 0x8000_0000) as u32 } else { a };
    let ub: u32 = if b >= 0x8000_0000 { (b - 0x8000_0000) as u32 } else { b };
    if a >= 0x8000_0000 {
        lemma_sign_cleared(a);
    }
    if b >= 0x8000_0000 {
        lemma_sign_cleared(b);
    }
    assert(exp_field(0xFF80_0000) == 255 && frac_field(0xFF80_0000) == 0);
    assert(exp_field(0x7F80_0000) == 255 && frac_field(0x7F80_0000) == 0);
    lemma_finite_bits(ua);
    lemma_finite_bits(ub);
    assert(magnitude(0) == 0) by {
        assert(significand(0) == 0);
    }
    // Magnitudes follow the bit patterns without the sign.
    if ua < ub {
        lemma_magnitude_increasing(ua, ub);
    } else if ub < ua {
        lemma_magnitude_increasing(ub, ua);
    }
    if ua > 0 {
        lemma_magnitude_increasing(0, ua);
    }
    if ub > 0 {
        lemma_magnitude_increasing(0, ub);
    }
}

// ---------------------------------------------------------------------------
// Bounded logs and histories
// ---------------------------------------------------------------------------

/// A bounded push keeps a list within its bound and ends it with the new element.
pub proof fn law_capped_push_bounded<T>(s: Seq<T>, x: T, cap: nat)
    requires
        cap > 0,
        s.len() <= cap,
    ensures
        capped_push(s, x, cap).len() <= cap,
        capped_push(s, x, cap).last() == x,
{
}

proof fn lemma_push_all_capped_bounded(ev: Seq<EventView>, new: Seq<EventView>, cap: nat)
    requires
        cap > 0,
        ev.len() <= cap,
    ensures
        push_all_capped(ev, new, cap).len() <= cap,
    decreases new.len(),
{
    if new.len() > 0 {
        lemma_push_all_capped_bounded(ev, new.drop_last(), cap);
    }
}

proof fn lemma_anomaly_fold_bounded(
    ev: Seq<EventView>,
    c: Seq<SampleView>,
    built: Seq<ProcessView>,
    now: i64,
)
    requires
        ev.len() <= 100,
    ensures
        anomaly_fold(ev, c, built, now).0.len() <= 100,
    decreases c.len(),
{
    if c.len() > 0 && built.len() > 0 {
        lemma_anomaly_fold_bounded(ev, c.drop_last(), built.drop_last(), now);
    }
}

/// The event log never grows past 100 events.
pub proof fn law_event_log_bounded(
    ev: Seq<EventView>,
    known: Set<u32>,
    c: Seq<SampleView>,
    built: Seq<ProcessView>,
    now: i64,
    t: i64,
)
    requires
        ev.len() <= 100,
    ensures
        events_after_update(ev, known, c, built, now, t).len() <= 100,
{
    lemma_push_all_capped_bounded(ev, started_events(c, known, t), 100);
    let ev1 = if known.is_empty() {
        ev
    } else {
        push_all_capped(ev, started_events(c, known, t), 100)
    };
    lemma_anomaly_fold_bounded(ev1, c, built, now);
}

/// An anomaly reported at `now` keeps the same process from being reported
/// again at `now`.
pub proof fn law_anomaly_blocks_repeat(ev: Seq<EventView>, pid: u32, p: ProcessView, now: i64)
    ensures
        !anomaly_due(capped_push(ev, anomaly_event(pid, p, now), 100), pid, now),
{
    let s = capped_push(ev, anomaly_event(pid, p, now), 100);
    let w = recent_events(s);
    assert(w.last() == s.last());
    assert(w.len() > 0);
}

/// While the newest recent anomaly of a process is younger than ten seconds,
/// the process is not reported again.
pub proof fn law_anomaly_cooldown(ev: Seq<EventView>, pid: u32, now: i64, t: i64)
    requires
        last_anomaly_time(recent_events(ev), pid) == Some(t),
        crate::app::whole_seconds_between(now, t) < 10,
    ensures
        !anomaly_due(ev, pid, now),
{
}

// ---------------------------------------------------------------------------
// Selection and keys
// ---------------------------------------------------------------------------

/// After a refresh a selected row is inside the list (row 0 of an empty list).
pub proof fn law_selection_in_bounds(row: Option<usize>, pid: Option<u32>, s: Seq<ProcessView>)
    ensures
        restored_row(row, pid, s) matches Some(i) ==> (if s.len() > 0 {
            i < s.len()
        } else {
            i == 0
        }),
{
    if let Some(p) = pid {
        lemma_row_of_pid_in_range(s, p, 0);
    }
}

proof fn lemma_row_of_pid_in_range(s: Seq<ProcessView>, pid: u32, k: int)
    ensures
        row_of_pid_from(s, pid, k) matches Some(i) ==> 0 <= i < s.len() && s[i].metadata.pid == pid,
    decreases s.len() - k,
{
    if k >= 0 && k < s.len() && s[k].metadata.pid != pid {
        lemma_row_of_pid_in_range(s, pid, k + 1);
    }
}

/// The selection follows the selected process across refreshes and sorts:
/// while it is listed, the selected row shows it.
pub proof fn law_selection_follows_pid(row: Option<usize>, pid: u32, s: Seq<ProcessView>)
    requires
        exists|i: int| 0 <= i < s.len() && s[i].metadata.pid == pid,
        s.len() <= usize::MAX,
    ensures
        restored_row(row, Some(pid), s) matches Some(i) && i < s.len() && s[i as int].metadata.pid == pid,
{
    lemma_row_of_pid_found(s, pid, 0);
    lemma_row_of_pid_in_range(s, pid, 0);
    let i = row_of_pid_from(s, pid, 0)->0;
    assert((i as usize) as int == i);
    assert(restored_row(row, Some(pid), s) == Some(i as usize));
}

proof fn lemma_row_of_pid_found(s: Seq<ProcessView>, pid: u32, k: int)
    requires
        0 <= k,
        exists|i: int| k <= i < s.len() && s[i].metadata.pid == pid,
    ensures
        row_of_pid_from(s, pid, k) is Some,
    decreases s.len() - k,
{
    if s[k].metadata.pid != pid {
        let i = choose|i: int| k <= i < s.len() && s[i].metadata.pid == pid;
        assert(i != k);
        lemma_row_of_pid_found(s, pid, k + 1);
    }
}

/// Moving down then up, or up then down, returns to the same row.
pub proof fn law_next_previous_inverse(i: usize, len: nat)
    requires
        i < len,
        len <= usize::MAX,
    ensures
        previous_row(Some(next_row(Some(i), len) as usize), len) == i,
        next_row(Some(previous_row(Some(i), len) as usize), len) == i,
        0 <= next_row(Some(i), len) < len,
        0 <= previous_row(Some(i), len) < len,
{
}

/// Moving down or up in an empty list never fails: it selects the top row
/// (from the top row or with nothing selected) and no process.
pub proof fn law_moving_in_empty_list(s: App, down: bool)
    requires
        s.processes@.len() == 0,
        s.selected_row is None || s.selected_row == Some(0usize) || down,
    ensures
        ({
            let t = if down {
                crate::app::after_next_process(s)
            } else {
                crate::app::after_previous_process(s)
            };
            t.selected_row == Some(0usize) && t.selected_pid is None
        }),
{
}

/// Five presses of `s` bring back the sort column.
pub proof fn law_sort_cycle(s: crate::app::SortBy)
    ensures
        next_sort(next_sort(next_sort(next_sort(next_sort(s))))) == s,
{
}

/// Tab then Shift+Tab returns to the same tab, and tab keys always land on
/// one of the four tabs.
pub proof fn law_tab_cycle(t: int)
    requires
        0 <= t < 4,
    ensures
        tab_after_key(KeyCode::BackTab, tab_after_key(KeyCode::Tab, t)->0) == Some(t),
        forall|k: KeyCode| #[trigger] tab_after_key(k, t) matches Some(u) ==> 0 <= u < 4,
{
}

/// A quit key quits on every tab and changes nothing else.
pub proof fn law_quit_keys_quit(s: App, k: Key)
    requires
        is_quit_key(k),
    ensures
        after_key(s, k) == (App { should_quit: true, ..s }),
{
}

/// Pressing `r` twice on the process tab restores the sort direction.
pub proof fn law_reverse_twice(s: App)
    requires
        s.selected_tab == crate::app::PROCESSES_TAB,
    ensures
        after_key(after_key(s, Key { code: KeyCode::Char('r'), ctrl: false }), Key { code: KeyCode::Char('r'), ctrl: false }) == s,
{
}

// ---------------------------------------------------------------------------
// Numbers in text
// ---------------------------------------------------------------------------

/// A decimal numeral is digits only, does not start with `+`, and is worth
/// its number.
pub proof fn lemma_decimal_digits(n: nat)
    ensures
        all_digits(decimal(n)),
        digits_value(decimal(n)) == n,
        decimal(n).len() > 0,
        decimal(n)[0] != '+',
        decimal(n)[0] != '_',
    decreases n,
{
    if n < 10 {
        let c = digit_char(n);
        assert(c as int == n + 48);
        assert(seq![c].drop_last() =~= Seq::<char>::empty());
        assert(seq![c].last() == c);
        assert(digit_value(c) == n);
        assert(digits_value(Seq::<char>::empty()) == 0);
        assert(digits_value(seq![c]) == digits_value(seq![c].drop_last()) * 10 + digit_value(c));
    } else {
        lemma_decimal_digits(n / 10);
        let d = decimal(n / 10);
        let c = digit_char(n % 10);
        assert(c as int == n % 10 + 48);
        assert(d.push(c).drop_last() =~= d);
        assert(d.push(c).last() == c);
        assert(digit_value(c) == n % 10);
        assert((n / 10) * 10 + n % 10 == n);
        assert(digits_value(d.push(c)) == digits_value(d) * 10 + digit_value(c));
        assert forall|i: int| 0 <= i < d.push(c).len() implies is_ascii_digit(#[trigger] d.push(c)[i]) by {
            if i < d.len() {
                assert(d.push(c)[i] == d[i]);
            }
        }
    }
}

/// Writing a number in decimal and reading it back gives the number.
pub proof fn law_decimal_reads_back(n: nat, max: nat)
    requires
        n <= max,
    ensures
        parse_unsigned(decimal(n), max) == Some(n),
{
    lemma_decimal_digits(n);
}

proof fn lemma_find_from_skips(s: Seq<char>, p: Seq<char>, a: int, b: int)
    requires
        0 <= a <= b,
        forall|k: int| a <= k < b ==> !matches_at(s, p, k),
    ensures
        find_from(s, p, a) == find_from(s, p, b),
    decreases b - a,
{
    if a < b {
        lemma_find_from_skips(s, p, a + 1, b);
    }
}

/// The pid the counters write into an instance name reads back from it:
/// for `pid_<p>` followed by nothing or by `_...`.
pub proof fn law_pid_reads_back(p: u32, rest: Seq<char>)
    requires
        rest.len() == 0 || rest[0] == '_',
    ensures
        crate::gpu::pid_in_name("pid_"@ + decimal(p as nat) + rest) == Some(p as nat),
{
    reveal_strlit("pid_");
    let d = decimal(p as nat);
    lemma_decimal_digits(p as nat);
    let name = "pid_"@ + d + rest;
    assert(name.subrange(0, 4) =~= "pid_"@);
    assert(matches_at(name, "pid_"@, 0));
    let digits = name.skip(4);
    assert(digits =~= d + rest);
    let us = seq!['_'];
    assert forall|k: int| 0 <= k < d.len() implies !matches_at(digits, us, k) by {
        assert(digits[k] == d[k]);
        assert(is_ascii_digit(d[k]));
        assert(digits.subrange(k, k + 1)[0] == digits[k]);
    }
    lemma_find_from_skips(digits, us, 0, d.len() as int);
    if rest.len() > 0 {
        assert(digits.subrange(d.len() as int, (d.len() + 1) as int) =~= us);
        assert(find_from(digits, us, 0) == Some(d.len() as int));
    } else {
        assert(find_from(digits, us, d.len() as int) is None);
    }
    assert(digits.take(d.len() as int) =~= d);
    law_decimal_reads_back(p as nat, u32::MAX as nat);
}


// ---------------------------------------------------------------------------
// The process list after a refresh
// ---------------------------------------------------------------------------

/// After a refresh the list holds one process per report: as many as there
/// were reports, and for each report a process with its metadata and the
/// risk of its sample.
pub proof fn law_list_matches_reports(
    procs: Seq<ProcessView>,
    c: Seq<SampleView>,
    m: Map<u32, ProcessView>,
    now: i64,
)
    requires
        procs.to_multiset() == crate::tick::rebuilt_list(c, m, now).to_multiset(),
    ensures
        procs.len() == c.len(),
        forall|j: int| 0 <= j < c.len() ==> exists|i: int| 0 <= i < procs.len() && (#[trigger] procs[i]).metadata == (#[trigger] c[j]).1
            && procs[i].current_risk == crate::analyzer::risk_view_of(c[j].1.name, c[j].2),
{
    broadcast use vstd::seq_lib::group_to_multiset_ensures;
    let built = crate::tick::rebuilt_list(c, m, now);
    assert(procs.len() == procs.to_multiset().len());
    assert(built.len() == built.to_multiset().len());
    assert forall|j: int| 0 <= j < c.len() implies exists|i: int| 0 <= i < procs.len() && (#[trigger] procs[i]).metadata == (#[trigger] c[j]).1
        && procs[i].current_risk == crate::analyzer::risk_view_of(c[j].1.name, c[j].2) by {
        assert(built.contains(built[j]));
        assert(built.to_multiset().count(built[j]) > 0);
        assert(procs.contains(built[j]));
        let i = choose|i: int| 0 <= i < procs.len() && procs[i] == built[j];
        assert(procs[i].metadata == c[j].1);
    }
}

/// No two processes of the list share a pid.
pub open spec fn pids_distinct(s: Seq<ProcessView>) -> bool {
    forall|i: int, j: int|
        0 <= i < j < s.len() ==> (#[trigger] s[i]).metadata.pid != (#[trigger] s[j]).metadata.pid
}

/// Two processes in order both ways have equal keys and the same pid.
proof fn lemma_in_order_both_ways(p: ProcessView, q: ProcessView, by: SortBy, desc: bool)
    requires
        in_order(p, q, by, desc),
        in_order(q, p, by, desc),
    ensures
        p.metadata.pid == q.metadata.pid,
{
    lemma_lex_compare_antisymmetric(text_key(p, by), text_key(q, by));
}

/// Sorting is deterministic: two orderings of the same processes (each pid
/// once) that are both sorted by the same column and direction are the same
/// list. So the order of the list after a refresh is fully determined.
pub proof fn law_sorted_order_unique(a: Seq<ProcessView>, b: Seq<ProcessView>, by: SortBy, desc: bool)
    requires
        a.to_multiset() == b.to_multiset(),
        pids_distinct(a),
        is_sorted(a, by, desc),
        is_sorted(b, by, desc),
    ensures
        a == b,
    decreases a.len(),
{
    broadcast use vstd::seq_lib::group_to_multiset_ensures;

    assert(a.len() == a.to_multiset().len());
    assert(b.len() == b.to_multiset().len());
    if a.len() == 0 {
        assert(a =~= b);
        return;
    }
    let n = a.len() - 1;
    let x = a[n];
    let y = b[n];
    assert(a.contains(x));
    assert(a.to_multiset().count(x) > 0);
    assert(b.contains(x));
    let k = choose|k: int| 0 <= k < b.len() && b[k] == x;
    assert(b.contains(y));
    assert(b.to_multiset().count(y) > 0);
    assert(a.contains(y));
    let m = choose|m: int| 0 <= m < a.len() && a[m] == y;
    if m != n && k != n {
        assert(in_order(a[m], a[n], by, desc));
        assert(in_order(b[k], b[n], by, desc));
        lemma_in_order_both_ways(x, y, by, desc);
        assert(a[m].metadata.pid != a[n].metadata.pid);
    }
    assert(x == y);
    let a1 = a.drop_last();
    let b1 = b.drop_last();
    assert(a.remove(n) =~= a1);
    assert(b.remove(n) =~= b1);
    assert(a1.to_multiset() == b1.to_multiset());
    assert(pids_distinct(a1));
    assert(is_sorted(a1, by, desc));
    assert(is_sorted(b1, by, desc));
    law_sorted_order_unique(a1, b1, by, desc);
    assert(a =~= a1.push(x));
    assert(b =~= b1.push(y));
}

/// A process keeps at most 60 samples, the newest last.
pub proof fn law_history_bounded(
    md: crate::models::MetadataView,
    m: crate::models::MetricsView,
    prev: Option<ProcessView>,
    now: i64,
)
    ensures
        crate::tick::rebuilt_view(md, m, prev, now).metrics_history.len() <= 60,
        crate::tick::rebuilt_view(md, m, prev, now).metrics_history.last() == (now, m),
{
}

// ---------------------------------------------------------------------------
// GPU
// ---------------------------------------------------------------------------

proof fn lemma_process_max_capped(rows: Seq<crate::gpu::GpuEngineSample>, only_3d: bool)
    ensures
        forall|p: u32| #[trigger] crate::gpu::process_max_utilization(rows, only_3d).contains_key(p)
            ==> crate::gpu::process_max_utilization(rows, only_3d)[p] <= 100,
    decreases rows.len(),
{
    if rows.len() > 0 {
        lemma_process_max_capped(rows.drop_last(), only_3d);
        let prev = crate::gpu::process_max_utilization(rows.drop_last(), only_3d);
        let cur = crate::gpu::process_max_utilization(rows, only_3d);
        assert forall|p: u32| #[trigger] cur.contains_key(p) implies cur[p] <= 100 by {
            if prev.contains_key(p) {
                assert(prev[p] <= 100);
            }
        }
    }
}

/// GPU load, overall and per process, is at most 100 %.
pub proof fn law_gpu_load_capped(rows: Seq<crate::gpu::GpuEngineSample>)
    ensures
        crate::gpu::overall_utilization(rows) matches Some(u) ==> u <= 100,
        forall|p: u32| #[trigger] crate::gpu::process_utilization(rows).contains_key(p)
            ==> crate::gpu::process_utilization(rows)[p] <= 100,
{
    lemma_process_max_capped(rows, false);
    lemma_process_max_capped(rows, true);
}

proof fn lemma_adapter_index(list: Seq<(u8, crate::gpu::AdapterView)>, a: crate::gpu::AdapterView, k: int)
    requires
        0 <= k,
    ensures
        crate::gpu::adapter_index(list, a, k) matches Some(i) ==> k <= i < list.len()
            && crate::gpu::same_adapter(list[i].1, a),
        crate::gpu::adapter_index(list, a, k) is None ==> forall|i: int| k <= i < list.len() ==> !crate::gpu::same_adapter(#[trigger] list[i].1, a),
    decreases list.len() - k,
{
    if k < list.len() && !crate::gpu::same_adapter(list[k].1, a) {
        lemma_adapter_index(list, a, k + 1);
    }
}

/// The adapter list names each physical adapter once.
pub proof fn law_adapters_distinct(cs: Seq<(crate::gpu::GpuBackend, crate::gpu::AdapterView)>, p: crate::gpu::Platform)
    ensures
        forall|i: int, j: int| 0 <= i < j < crate::gpu::best_adapters(cs, p).len() ==> !crate::gpu::same_adapter(
            (#[trigger] crate::gpu::best_adapters(cs, p)[i]).1,
            (#[trigger] crate::gpu::best_adapters(cs, p)[j]).1,
        ),
    decreases cs.len(),
{
    if cs.len() > 0 {
        law_adapters_distinct(cs.drop_last(), p);
        let prev = crate::gpu::best_adapters(cs.drop_last(), p);
        let (b, a) = cs.last();
        lemma_adapter_index(prev, a, 0);
    }
}

// ---------------------------------------------------------------------------
// Disk throughput
// ---------------------------------------------------------------------------

/// The first measurement shows no traffic, and a measurement never shows
/// more than the current total.
pub proof fn law_disk_delta(total: u64, previous: Option<u64>)
    ensures
        previous is None ==> crate::tick::disk_delta(total, previous) == 0,
        crate::tick::disk_delta(total, previous) <= total,
{
}


// ---------------------------------------------------------------------------
// What the individual decisions are
// ---------------------------------------------------------------------------

/// A lower-cased name is suspicious exactly when it contains one of the
/// eight names `nc`, `netcat`, `nmap`, `wireshark`, `keylogger`,
/// `powershell.exe`, `cmd.exe` or `mimikatz`; no other name counts.
pub proof fn law_suspicious_names_are_these_eight(lower: Seq<char>)
    ensures
        crate::analyzer::is_suspicious_lower(lower) <==> (contains(lower, "nc"@) || contains(
            lower,
            "netcat"@,
        ) || contains(lower, "nmap"@) || contains(lower, "wireshark"@) || contains(
            lower,
            "keylogger"@,
        ) || contains(lower, "powershell.exe"@) || contains(lower, "cmd.exe"@) || contains(
            lower,
            "mimikatz"@,
        )),
        crate::analyzer::suspicious_names().len() == 8,
{
    let names = crate::analyzer::suspicious_names();
    if contains(lower, "nc"@) {
        assert(contains(lower, names[0]));
    }
    if contains(lower, "netcat"@) {
        assert(contains(lower, names[1]));
    }
    if contains(lower, "nmap"@) {
        assert(contains(lower, names[2]));
    }
    if contains(lower, "wireshark"@) {
        assert(contains(lower, names[3]));
    }
    if contains(lower, "keylogger"@) {
        assert(contains(lower, names[4]));
    }
    if contains(lower, "powershell.exe"@) {
        assert(contains(lower, names[5]));
    }
    if contains(lower, "cmd.exe"@) {
        assert(contains(lower, names[6]));
    }
    if contains(lower, "mimikatz"@) {
        assert(contains(lower, names[7]));
    }
}

/// The newest anomaly time of a process is the time of an anomaly event of
/// that very process, the newest one; with none of its anomalies there is
/// no time. Events of other processes never count.
pub proof fn law_last_anomaly_is_own(s: Seq<EventView>, pid: u32)
    ensures
        last_anomaly_time(s, pid) matches Some(t) ==> exists|i: int|
            0 <= i < s.len() && (#[trigger] s[i]).pid == pid && s[i].event_type
                == EventType::AnomalyDetected && s[i].timestamp == t && forall|j: int|
                i < j < s.len() ==> !((#[trigger] s[j]).pid == pid && s[j].event_type
                    == EventType::AnomalyDetected),
        last_anomaly_time(s, pid) is None ==> forall|i: int|
            0 <= i < s.len() ==> !((#[trigger] s[i]).pid == pid && s[i].event_type
                == EventType::AnomalyDetected),
    decreases s.len(),
{
    if s.len() > 0 {
        let n = s.len() - 1;
        law_last_anomaly_is_own(s.drop_last(), pid);
        if s.last().pid == pid && s.last().event_type == EventType::AnomalyDetected {
            assert(s[n] == s.last());
        } else {
            assert(forall|j: int| 0 <= j < n ==> s.drop_last()[j] == s[j]);
            if let Some(t) = last_anomaly_time(s, pid) {
                let i = choose|i: int|
                    0 <= i < s.drop_last().len() && (#[trigger] s.drop_last()[i]).pid == pid
                        && s.drop_last()[i].event_type == EventType::AnomalyDetected
                        && s.drop_last()[i].timestamp == t && forall|j: int|
                        i < j < s.drop_last().len() ==> !((#[trigger] s.drop_last()[j]).pid == pid
                            && s.drop_last()[j].event_type == EventType::AnomalyDetected);
                assert(s[i] == s.drop_last()[i]);
                assert forall|j: int| i < j < s.len() implies !((#[trigger] s[j]).pid == pid
                    && s[j].event_type == EventType::AnomalyDetected) by {
                    if j < n {
                        assert(s[j] == s.drop_last()[j]);
                    }
                }
            } else {
                assert forall|i: int| 0 <= i < s.len() implies !((#[trigger] s[i]).pid == pid
                    && s[i].event_type == EventType::AnomalyDetected) by {
                    if i < n {
                        assert(s[i] == s.drop_last()[i]);
                    }
                }
            }
        }
    }
}

/// The ten-second cooldown is per process: while fewer events are kept than
/// the lookback, an event of another process (an anomaly included) never
/// changes whether an anomaly of `pid` may be reported.
pub proof fn law_cooldown_is_per_process(ev: Seq<EventView>, e: EventView, pid: u32, now: i64)
    requires
        e.pid != pid,
        ev.len() < crate::tick::ANOMALY_LOOKBACK,
    ensures
        anomaly_due(ev.push(e), pid, now) == anomaly_due(ev, pid, now),
{
    assert(ev.push(e).drop_last() =~= ev);
}

/// A process that was never reported is reported as soon as it is risky,
/// whatever other processes were reported: no anomaly event of its own
/// among the recent events means it is due.
pub proof fn law_first_anomaly_is_due(ev: Seq<EventView>, pid: u32, now: i64)
    requires
        forall|i: int| 0 <= i < ev.len() ==> (#[trigger] ev[i]).pid != pid,
    ensures
        anomaly_due(ev, pid, now),
{
    let w = crate::tick::recent_events(ev);
    law_last_anomaly_is_own(w, pid);
    if let Some(t) = last_anomaly_time(w, pid) {
        let i = choose|i: int| 0 <= i < w.len() && (#[trigger] w[i]).pid == pid && w[i].event_type
            == EventType::AnomalyDetected && w[i].timestamp == t && forall|j: int|
            i < j < w.len() ==> !((#[trigger] w[j]).pid == pid && w[j].event_type
                == EventType::AnomalyDetected);
        if ev.len() > crate::tick::ANOMALY_LOOKBACK {
            assert(w[i] == ev[ev.len() - crate::tick::ANOMALY_LOOKBACK + i]);
        } else {
            assert(w[i] == ev[i]);
        }
    }
}

/// The newest CPU reading of a process, if it has samples.
pub open spec fn newest_cpu(p: ProcessView) -> Option<u32> {
    if p.metrics_history.len() > 0 {
        Some(p.metrics_history[p.metrics_history.len() - 1].1.cpu_usage_bits)
    } else {
        None
    }
}

/// Sorting by CPU follows the newest sample of each process: in a list
/// sorted by CPU, descending, a process comes before another only if its
/// newest CPU reading is at least the other's (ascending: at most), for
/// finite readings.
pub proof fn law_cpu_sort_follows_newest_sample(s: Seq<ProcessView>, desc: bool, i: int, j: int)
    requires
        is_sorted(s, SortBy::Cpu, desc),
        0 <= i < j < s.len(),
        newest_cpu(s[i]) is Some,
        newest_cpu(s[j]) is Some,
        exp_field(newest_cpu(s[i])->0) != 255,
        exp_field(newest_cpu(s[j])->0) != 255,
    ensures
        desc ==> value_units(newest_cpu(s[i])->0) >= value_units(newest_cpu(s[j])->0),
        !desc ==> value_units(newest_cpu(s[i])->0) <= value_units(newest_cpu(s[j])->0),
{
    let a = newest_cpu(s[i])->0;
    let b = newest_cpu(s[j])->0;
    assert(in_order(s[i], s[j], SortBy::Cpu, desc));
    law_cpu_order_matches_values(a, b);
    assert(crate::sorting::numeric_key(s[i], SortBy::Cpu) == order_key(a));
    assert(crate::sorting::numeric_key(s[j], SortBy::Cpu) == order_key(b));
}

/// The top-risk list goes by risk score, then pid: a listed process has a
/// score at least that of every later one (the pid at least as high on
/// equal scores), and at least that of every process left out, whatever
/// the risk levels.
pub proof fn law_top_risk_by_score(
    procs: Seq<crate::models::MonitoredProcess>,
    rows: Seq<usize>,
    n: nat,
)
    requires
        crate::dashboard::is_top_ranked(procs, rows, n),
    ensures
        forall|i: int, j: int|
            0 <= i < j < rows.len() ==> {
                let a = procs[#[trigger] rows[i] as int];
                let b = procs[#[trigger] rows[j] as int];
                a.current_risk.score > b.current_risk.score || (a.current_risk.score
                    == b.current_risk.score && a.metadata.pid >= b.metadata.pid)
            },
        forall|k: int, i: int|
            0 <= k < procs.len() && !rows.contains(k as usize) && 0 <= i < rows.len() ==> procs[
            #[trigger] rows[i] as int].current_risk.score >= (#[trigger] procs[k]).current_risk.score,
{
}

/// The largest load among the counted rows bounds every counted row and is
/// the load of one of them (or 0 with no busy row).
proof fn lemma_max_utilization(rows: Seq<crate::gpu::GpuEngineSample>, only_3d: bool)
    ensures
        forall|i: int|
            0 <= i < rows.len() && (!only_3d || crate::gpu::is_3d_engine((#[trigger] rows[i]).name@))
                ==> rows[i].utilization_percentage <= crate::gpu::max_utilization(rows, only_3d),
        crate::gpu::max_utilization(rows, only_3d) == 0 || exists|i: int|
            0 <= i < rows.len() && (!only_3d || crate::gpu::is_3d_engine((#[trigger] rows[i]).name@))
                && rows[i].utilization_percentage == crate::gpu::max_utilization(rows, only_3d),
    decreases rows.len(),
{
    if rows.len() > 0 {
        let r = rows.drop_last();
        lemma_max_utilization(r, only_3d);
        assert forall|i: int| 0 <= i < r.len() implies rows[i] == r[i] by {}
        let m = crate::gpu::max_utilization(rows, only_3d);
        if m != 0 && m != crate::gpu::max_utilization(r, only_3d) {
            assert(rows[rows.len() - 1] == rows.last());
        }
        if m != 0 && m == crate::gpu::max_utilization(r, only_3d) {
            let i = choose|i: int|
                0 <= i < r.len() && (!only_3d || crate::gpu::is_3d_engine((#[trigger] r[i]).name@))
                    && r[i].utilization_percentage == crate::gpu::max_utilization(r, only_3d);
            assert(rows[i] == r[i]);
        }
        assert(rows[rows.len() - 1] == rows.last());
    }
}

/// `u` capped at 100.
pub open spec fn capped_load(u: u64) -> u64 {
    if u > 100 {
        100
    } else {
        u
    }
}

/// The overall GPU load is the busiest engine's: the busiest 3D engine when
/// some 3D engine is busy (every 3D engine's load, capped at 100, is at most
/// it, and one 3D engine has it), else the busiest of all engines; there is
/// none exactly when every engine is idle.
pub proof fn law_overall_gpu_load_is_busiest(rows: Seq<crate::gpu::GpuEngineSample>)
    ensures
        crate::gpu::overall_utilization(rows) is None <==> forall|i: int|
            0 <= i < rows.len() ==> (#[trigger] rows[i]).utilization_percentage == 0,
        (exists|i: int| 0 <= i < rows.len() && crate::gpu::is_3d_engine((#[trigger] rows[i]).name@)
            && rows[i].utilization_percentage > 0) ==> (crate::gpu::overall_utilization(rows) matches Some(u)
            && (forall|i: int| 0 <= i < rows.len() && crate::gpu::is_3d_engine((#[trigger] rows[i]).name@)
                ==> capped_load(rows[i].utilization_percentage) <= u) && exists|j: int|
                0 <= j < rows.len() && crate::gpu::is_3d_engine((#[trigger] rows[j]).name@) && u
                    == capped_load(rows[j].utilization_percentage)),
        (forall|i: int| 0 <= i < rows.len() && crate::gpu::is_3d_engine((#[trigger] rows[i]).name@)
            ==> rows[i].utilization_percentage == 0) ==> (crate::gpu::overall_utilization(rows) matches Some(u)
            ==> ((forall|i: int| 0 <= i < rows.len() ==> capped_load((#[trigger] rows[i]).utilization_percentage) <= u)
            && exists|j: int| 0 <= j < rows.len() && u == capped_load((#[trigger] rows[j]).utilization_percentage))),
{
    lemma_max_utilization(rows, false);
    lemma_max_utilization(rows, true);
    let all = crate::gpu::max_utilization(rows, false);
    let three = crate::gpu::max_utilization(rows, true);
    if exists|i: int| 0 <= i < rows.len() && crate::gpu::is_3d_engine((#[trigger] rows[i]).name@)
        && rows[i].utilization_percentage > 0 {
        let i = choose|i: int| 0 <= i < rows.len() && crate::gpu::is_3d_engine((#[trigger] rows[i]).name@)
            && rows[i].utilization_percentage > 0;
        assert(three > 0);
    }
    if forall|i: int| 0 <= i < rows.len() && crate::gpu::is_3d_engine((#[trigger] rows[i]).name@)
        ==> rows[i].utilization_percentage == 0 {
        if three > 0 {
            let j = choose|j: int| 0 <= j < rows.len() && crate::gpu::is_3d_engine((#[trigger] rows[j]).name@)
                && rows[j].utilization_percentage == three;
        }
    }
    if all > 0 {
        let j = choose|j: int| 0 <= j < rows.len() && rows[j].utilization_percentage == all && (!false
            || crate::gpu::is_3d_engine((#[trigger] rows[j]).name@));
        assert(rows[j].utilization_percentage > 0);
    }
}


/// The high-risk count counts processes at `High` or `Critical` risk and no
/// others: one more such process adds one, any other process adds nothing.
pub proof fn law_high_risk_count_counts_high_and_critical(
    s: Seq<crate::models::MonitoredProcess>,
    p: crate::models::MonitoredProcess,
)
    ensures
        (p.current_risk.level == RiskLevel::High || p.current_risk.level == RiskLevel::Critical)
            ==> crate::dashboard::count_high(s.push(p)) == crate::dashboard::count_high(s) + 1,
        (p.current_risk.level == RiskLevel::Low || p.current_risk.level == RiskLevel::Medium)
            ==> crate::dashboard::count_high(s.push(p)) == crate::dashboard::count_high(s),
{
    assert(s.push(p).drop_last() =~= s);
}

/// The top GPU and VRAM lists go by value: a listed row's value is at least
/// that of every later row (on equal values the earlier row comes first) and
/// at least that of every row left out.
pub proof fn law_top_values_by_value(values: Seq<u64>, rows: Seq<usize>, n: nat)
    requires
        crate::dashboard::is_top_by_value(values, rows, n),
    ensures
        forall|i: int, j: int|
            0 <= i < j < rows.len() ==> values[#[trigger] rows[i] as int] > values[#[trigger] rows[j] as int]
                || (values[rows[i] as int] == values[rows[j] as int] && rows[i] < rows[j]),
        forall|k: int, i: int|
            0 <= k < values.len() && !rows.contains(k as usize) && 0 <= i < rows.len() ==> values[
            #[trigger] rows[i] as int] >= #[trigger] values[k],
{
    assert forall|k: int, i: int|
        0 <= k < values.len() && !rows.contains(k as usize) && 0 <= i < rows.len() implies values[
        #[trigger] rows[i] as int] >= #[trigger] values[k] by {
        assert(crate::dashboard::value_ranks_above(values, rows[i] as int, k));
    }
}

} // verus!
