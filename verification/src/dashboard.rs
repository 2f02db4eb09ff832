//! What the dashboard shows about the process list.
use vstd::prelude::*;

use crate::gpu::GpuProcessMemory;
use crate::models::{MonitoredProcess, RiskLevel};
use std::collections::HashMap;

verus! {

/// Rows shown in the top-risk list.
pub const TOP_RISK_ROWS: usize = 10;

/// The process is at `High` or `Critical` risk.
pub open spec fn is_high(p: MonitoredProcess) -> bool {
    p.current_risk.level == RiskLevel::High || p.current_risk.level == RiskLevel::Critical
}

/// How many of the processes are at high or critical risk.
pub open spec fn count_high(s: Seq<MonitoredProcess>) -> nat
    decreases s.len(),
{
    if s.len() == 0 {
        0
    } else {
        count_high(s.drop_last()) + if is_high(s.last()) {
            1nat
        } else {
            0nat
        }
    }
}

/// How many processes are at high or critical risk.
pub fn high_risk_count(procs: &Vec<MonitoredProcess>) -> (r: usize)
    ensures
        r == count_high(procs@),
{
    let mut n: usize = 0;
    let mut i: usize = 0;
    while i < procs.len()
        invariant
            i <= procs.len(),
            n == count_high(procs@.take(i as int)),
            n <= i,
        decreases procs.len() - i,
    {
        assert(procs@.take(i + 1).drop_last() =~= procs@.take(i as int));
        let high = match procs[i].current_risk.level {
            RiskLevel::High | RiskLevel::Critical => true,
            _ => false,
        };
        if high {
            n = n + 1;
        }
        i = i + 1;
    }
    assert(procs@.take(procs.len() as int) =~= procs@);
    n
}

/// `a` ranks at least as high as `b`: a higher score, or an equal score and
/// a pid at least as high.
pub open spec fn ranks_above(a: MonitoredProcess, b: MonitoredProcess) -> bool {
    a.current_risk.score > b.current_risk.score || (a.current_risk.score == b.current_risk.score
        && a.metadata.pid >= b.metadata.pid)
}

/// `rows` lists the `n` highest-ranked processes of `procs` (all of them if
/// there are fewer), highest first: distinct rows of `procs`, in rank order,
/// and every process left out ranks no higher than every one listed.
pub open spec fn is_top_ranked(procs: Seq<MonitoredProcess>, rows: Seq<usize>, n: nat) -> bool {
    &&& rows.len() == if procs.len() < n {
        procs.len()
    } else {
        n
    }
    &&& forall|i: int| 0 <= i < rows.len() ==> (#[trigger] rows[i]) < procs.len()
    &&& forall|i: int, j: int| 0 <= i < j < rows.len() ==> #[trigger] rows[i] != #[trigger] rows[j]
    &&& forall|i: int, j: int|
        0 <= i < j < rows.len() ==> ranks_above(procs[#[trigger] rows[i] as int], procs[#[trigger] rows[j] as int])
    &&& forall|k: int, i: int|
        0 <= k < procs.len() && !rows.contains(k as usize) && 0 <= i < rows.len() ==> ranks_above(
            procs[#[trigger] rows[i] as int],
            #[trigger] procs[k],
        )
}

fn ranks_above_exec(a: &MonitoredProcess, b: &MonitoredProcess) -> (r: bool)
    ensures
        r == ranks_above(*a, *b),
{
    a.current_risk.score > b.current_risk.score || (a.current_risk.score == b.current_risk.score
        && a.metadata.pid >= b.metadata.pid)
}

/// How many entries are set.
spec fn count_true(s: Seq<bool>) -> nat
    decreases s.len(),
{
    if s.len() == 0 {
        0
    } else {
        count_true(s.drop_last()) + if s.last() {
            1nat
        } else {
            0nat
        }
    }
}

proof fn lemma_count_true_all(s: Seq<bool>)
    requires
        forall|i: int| 0 <= i < s.len() ==> #[trigger] s[i],
    ensures
        count_true(s) == s.len(),
    decreases s.len(),
{
    if s.len() > 0 {
        lemma_count_true_all(s.drop_last());
    }
}

proof fn lemma_count_true_set(s: Seq<bool>, k: int)
    requires
        0 <= k < s.len(),
        !s[k],
    ensures
        count_true(s.update(k, true)) == count_true(s) + 1,
    decreases s.len(),
{
    if k < s.len() - 1 {
        lemma_count_true_set(s.drop_last(), k);
        assert(s.update(k, true).drop_last() =~= s.drop_last().update(k, true));
    } else {
        assert(s.update(k, true).drop_last() =~= s.drop_last());
    }
}

/// The rows of the `n` highest-ranked processes (by risk score, then pid,
/// both descending), highest first: the top-risk list of the dashboard.
pub fn top_risk_rows(procs: &Vec<MonitoredProcess>, n: usize) -> (rows: Vec<usize>)
    ensures
        is_top_ranked(procs@, rows@, n as nat),
{
    let len = procs.len();
    let mut rows: Vec<usize> = Vec::new();
    let mut taken: Vec<bool> = Vec::new();
    let mut t: usize = 0;
    while t < len
        invariant
            t <= len,
            taken@.len() == t,
            forall|i: int| 0 <= i < t ==> !(#[trigger] taken@[i]),
        decreases len - t,
    {
        taken.push(false);
        t = t + 1;
    }
    proof {
        assert(count_true(taken@) == 0) by {
            lemma_count_false(taken@);
        }
    }
    while rows.len() < n && rows.len() < len
        invariant
            len == procs@.len(),
            taken@.len() == len,
            rows@.len() == count_true(taken@),
            forall|k: int| 0 <= k < len ==> (#[trigger] taken@[k] <==> rows@.contains(k as usize)),
            rows@.len() <= n,
            rows@.len() <= len,
            forall|i: int| 0 <= i < rows@.len() ==> (#[trigger] rows@[i]) < len,
            forall|i: int, j: int| 0 <= i < j < rows@.len() ==> #[trigger] rows@[i] != #[trigger] rows@[j],
            forall|i: int, j: int|
                0 <= i < j < rows@.len() ==> ranks_above(procs@[#[trigger] rows@[i] as int], procs@[#[trigger] rows@[j] as int]),
            forall|k: int, i: int|
                0 <= k < len && !rows@.contains(k as usize) && 0 <= i < rows@.len() ==> ranks_above(
                    procs@[#[trigger] rows@[i] as int],
                    #[trigger] procs@[k],
                ),
        decreases len - rows@.len(),
    {
        let mut best: Option<usize> = None;
        let mut k: usize = 0;
        while k < len
            invariant
                len == procs@.len(),
                taken@.len() == len,
                k <= len,
                match best {
                    Some(b) => b < k && !taken@[b as int] && forall|m: int|
                        0 <= m < k && !taken@[m] ==> ranks_above(procs@[b as int], #[trigger] procs@[m]),
                    None => forall|m: int| 0 <= m < k ==> #[trigger] taken@[m],
                },
            decreases len - k,
        {
            if !taken[k] {
                match best {
                    Some(b) => {
                        if !ranks_above_exec(&procs[b], &procs[k]) {
                            best = Some(k);
                        }
                    },
                    None => {
                        best = Some(k);
                    },
                }
            }
            k = k + 1;
        }
        match best {
            Some(b) => {
                let ghost before = rows@;
                let ghost taken_before = taken@;
                rows.push(b);
                taken.set(b, true);
                proof {
                    lemma_count_true_set(taken_before, b as int);
                    assert(!before.contains(b));
                    assert forall|k: int| 0 <= k < len implies (#[trigger] taken@[k] <==> rows@.contains(k as usize)) by {
                        if k == b as int {
                            assert(rows@[before.len() as int] == b);
                        } else {
                            if rows@.contains(k as usize) {
                                let w = choose|w: int| 0 <= w < rows@.len() && rows@[w] == k as usize;
                                assert(w < before.len());
                                assert(before[w] == k as usize);
                            }
                            if before.contains(k as usize) {
                                let w = choose|w: int| 0 <= w < before.len() && before[w] == k as usize;
                                assert(rows@[w] == k as usize);
                            }
                        }
                    }
                    assert forall|i: int, j: int| 0 <= i < j < rows@.len() implies ranks_above(procs@[#[trigger] rows@[i] as int], procs@[#[trigger] rows@[j] as int]) by {
                        if j == rows@.len() - 1 {
                            assert(before[i] == rows@[i]);
                        }
                    }
                    assert forall|i: int, j: int| 0 <= i < j < rows@.len() implies #[trigger] rows@[i] != #[trigger] rows@[j] by {
                        if j == rows@.len() - 1 {
                            assert(before[i] == rows@[i]);
                            assert(before.contains(before[i]));
                        }
                    }
                    assert forall|m: int, i: int|
                        0 <= m < len && !rows@.contains(m as usize) && 0 <= i < rows@.len() implies ranks_above(
                            procs@[#[trigger] rows@[i] as int],
                            #[trigger] procs@[m],
                        ) by {
                        assert(!before.contains(m as usize)) by {
                            if before.contains(m as usize) {
                                let w = choose|w: int| 0 <= w < before.len() && before[w] == m as usize;
                                assert(rows@[w] == m as usize);
                            }
                        }
                        assert(!taken_before[m]);
                        if i < before.len() {
                            assert(before[i] == rows@[i]);
                        }
                    }
                }
            },
            None => {
                proof {
                    lemma_count_true_all(taken@);
                }
                assert(false);
            },
        }
    }
    rows
}

proof fn lemma_count_false(s: Seq<bool>)
    requires
        forall|i: int| 0 <= i < s.len() ==> !(#[trigger] s[i]),
    ensures
        count_true(s) == 0,
    decreases s.len(),
{
    if s.len() > 0 {
        lemma_count_false(s.drop_last());
    }
}


/// Rows shown in the top GPU and top VRAM lists.
pub const TOP_GPU_ROWS: usize = 10;

/// Row `a` ranks at least as high as row `b` by value: a larger value, or an
/// equal value and an earlier row.
pub open spec fn value_ranks_above(values: Seq<u64>, a: int, b: int) -> bool {
    values[a] > values[b] || (values[a] == values[b] && a <= b)
}

/// `rows` lists the `n` rows with the largest values (all of them if there
/// are fewer), largest first and earlier rows first among equal values:
/// what a stable sort by descending value, cut after `n`, gives.
pub open spec fn is_top_by_value(values: Seq<u64>, rows: Seq<usize>, n: nat) -> bool {
    &&& rows.len() == if values.len() < n {
        values.len()
    } else {
        n
    }
    &&& forall|i: int| 0 <= i < rows.len() ==> (#[trigger] rows[i]) < values.len()
    &&& forall|i: int, j: int| 0 <= i < j < rows.len() ==> #[trigger] rows[i] != #[trigger] rows[j]
    &&& forall|i: int, j: int|
        0 <= i < j < rows.len() ==> value_ranks_above(values, #[trigger] rows[i] as int, #[trigger] rows[j] as int)
    &&& forall|k: int, i: int|
        0 <= k < values.len() && !rows.contains(k as usize) && 0 <= i < rows.len() ==> #[trigger] value_ranks_above(
            values,
            rows[i] as int,
            k,
        )
}

/// The rows of the `n` largest values, largest first, earlier rows first
/// among equal values.
pub fn top_value_rows(values: &Vec<u64>, n: usize) -> (rows: Vec<usize>)
    ensures
        is_top_by_value(values@, rows@, n as nat),
{
    let len = values.len();
    let mut rows: Vec<usize> = Vec::new();
    let mut taken: Vec<bool> = Vec::new();
    let mut t: usize = 0;
    while t < len
        invariant
            t <= len,
            taken@.len() == t,
            forall|i: int| 0 <= i < t ==> !(#[trigger] taken@[i]),
        decreases len - t,
    {
        taken.push(false);
        t = t + 1;
    }
    proof {
        assert(count_true(taken@) == 0) by {
            lemma_count_false(taken@);
        }
    }
    while rows.len() < n && rows.len() < len
        invariant
            len == values@.len(),
            taken@.len() == len,
            rows@.len() == count_true(taken@),
            forall|k: int| 0 <= k < len ==> (#[trigger] taken@[k] <==> rows@.contains(k as usize)),
            rows@.len() <= n,
            rows@.len() <= len,
            forall|i: int| 0 <= i < rows@.len() ==> (#[trigger] rows@[i]) < len,
            forall|i: int, j: int| 0 <= i < j < rows@.len() ==> #[trigger] rows@[i] != #[trigger] rows@[j],
            forall|i: int, j: int|
                0 <= i < j < rows@.len() ==> value_ranks_above(values@, #[trigger] rows@[i] as int, #[trigger] rows@[j] as int),
            forall|k: int, i: int|
                0 <= k < len && !rows@.contains(k as usize) && 0 <= i < rows@.len() ==> #[trigger] value_ranks_above(
                    values@,
                    rows@[i] as int,
                    k,
                ),
        decreases len - rows@.len(),
    {
        let mut best: Option<usize> = None;
        let mut k: usize = 0;
        while k < len
            invariant
                len == values@.len(),
                taken@.len() == len,
                k <= len,
                match best {
                    Some(b) => b < k && !taken@[b as int] && forall|m: int|
                        0 <= m < k && !taken@[m] ==> #[trigger] value_ranks_above(values@, b as int, m),
                    None => forall|m: int| 0 <= m < k ==> #[trigger] taken@[m],
                },
            decreases len - k,
        {
            if !taken[k] {
                match best {
                    Some(b) => {
                        if !(values[b] > values[k] || (values[b] == values[k] && b <= k)) {
                            proof {
                                assert forall|m: int| 0 <= m < k && !taken@[m] implies #[trigger] value_ranks_above(
                                    values@,
                                    k as int,
                                    m,
                                ) by {
                                    assert(value_ranks_above(values@, b as int, m));
                                }
                                assert(value_ranks_above(values@, k as int, k as int));
                            }
                            best = Some(k);
                        } else {
                            assert(value_ranks_above(values@, b as int, k as int));
                        }
                    },
                    None => {
                        best = Some(k);
                    },
                }
            }
            k = k + 1;
        }
        match best {
            Some(b) => {
                let ghost before = rows@;
                let ghost taken_before = taken@;
                rows.push(b);
                taken.set(b, true);
                proof {
                    lemma_count_true_set(taken_before, b as int);
                    assert(!before.contains(b));
                    assert forall|k: int| 0 <= k < len implies (#[trigger] taken@[k] <==> rows@.contains(k as usize)) by {
                        if k == b as int {
                            assert(rows@[before.len() as int] == b);
                        } else {
                            if rows@.contains(k as usize) {
                                let w = choose|w: int| 0 <= w < rows@.len() && rows@[w] == k as usize;
                                assert(w < before.len());
                                assert(before[w] == k as usize);
                            }
                            if before.contains(k as usize) {
                                let w = choose|w: int| 0 <= w < before.len() && before[w] == k as usize;
                                assert(rows@[w] == k as usize);
                            }
                        }
                    }
                    assert forall|i: int, j: int| 0 <= i < j < rows@.len() implies value_ranks_above(values@, #[trigger] rows@[i] as int, #[trigger] rows@[j] as int) by {
                        if j == rows@.len() - 1 {
                            assert(before[i] == rows@[i]);
                            assert(!taken_before[b as int]);
                        }
                    }
                    assert forall|i: int, j: int| 0 <= i < j < rows@.len() implies #[trigger] rows@[i] != #[trigger] rows@[j] by {
                        if j == rows@.len() - 1 {
                            assert(before[i] == rows@[i]);
                            assert(before.contains(before[i]));
                        }
                    }
                    assert forall|m: int, i: int|
                        0 <= m < len && !rows@.contains(m as usize) && 0 <= i < rows@.len() implies #[trigger] value_ranks_above(
                            values@,
                            rows@[i] as int,
                            m,
                        ) by {
                        assert(!before.contains(m as usize)) by {
                            if before.contains(m as usize) {
                                let w = choose|w: int| 0 <= w < before.len() && before[w] == m as usize;
                                assert(rows@[w] == m as usize);
                            }
                        }
                        assert(!taken_before[m]);
                        if i < before.len() {
                            assert(before[i] == rows@[i]);
                        }
                    }
                }
            },
            None => {
                proof {
                    lemma_count_true_all(taken@);
                }
                assert(false);
            },
        }
    }
    rows
}

/// The GPU load of a pid in the per-process readings, 0 without one.
pub open spec fn gpu_load_of(usage: Map<u32, u64>, pid: u32) -> u64 {
    if usage.dom().contains(pid) {
        usage[pid]
    } else {
        0
    }
}

/// The dedicated GPU memory (bytes) of a pid in the per-process readings, 0
/// without one.
pub open spec fn vram_of(mem: Map<u32, GpuProcessMemory>, pid: u32) -> u64 {
    if mem.dom().contains(pid) {
        match mem[pid].dedicated_used_bytes {
            Some(b) => b,
            None => 0,
        }
    } else {
        0
    }
}

/// The GPU load of each listed process, in list order.
pub fn gpu_load_values(procs: &Vec<MonitoredProcess>, usage: &HashMap<u32, u64>) -> (v: Vec<u64>)
    ensures
        v@.len() == procs@.len(),
        forall|i: int| 0 <= i < procs@.len() ==> #[trigger] v@[i] == gpu_load_of(usage@, procs@[i].metadata.pid),
{
    broadcast use vstd::std_specs::hash::group_hash_axioms;
    let mut v: Vec<u64> = Vec::new();
    let mut i: usize = 0;
    while i < procs.len()
        invariant
            i <= procs@.len(),
            v@.len() == i,
            forall|j: int| 0 <= j < i ==> #[trigger] v@[j] == gpu_load_of(usage@, procs@[j].metadata.pid),
        decreases procs.len() - i,
    {
        let x = match usage.get(&procs[i].metadata.pid) {
            Some(u) => *u,
            None => 0,
        };
        v.push(x);
        i = i + 1;
    }
    v
}

/// The dedicated GPU memory (bytes) of each listed process, in list order.
pub fn vram_values(procs: &Vec<MonitoredProcess>, mem: &HashMap<u32, GpuProcessMemory>) -> (v: Vec<u64>)
    ensures
        v@.len() == procs@.len(),
        forall|i: int| 0 <= i < procs@.len() ==> #[trigger] v@[i] == vram_of(mem@, procs@[i].metadata.pid),
{
    broadcast use vstd::std_specs::hash::group_hash_axioms;
    let mut v: Vec<u64> = Vec::new();
    let mut i: usize = 0;
    while i < procs.len()
        invariant
            i <= procs@.len(),
            v@.len() == i,
            forall|j: int| 0 <= j < i ==> #[trigger] v@[j] == vram_of(mem@, procs@[j].metadata.pid),
        decreases procs.len() - i,
    {
        let x = match mem.get(&procs[i].metadata.pid) {
            Some(m) => match m.dedicated_used_bytes {
                Some(b) => b,
                None => 0,
            },
            None => 0,
        };
        v.push(x);
        i = i + 1;
    }
    v
}

} // verus!
