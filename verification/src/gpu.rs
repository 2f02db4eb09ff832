//! What the monitor makes of the GPU readings: the adapter list, overall
//! load and memory, and load and memory per process.
use vstd::prelude::*;
use std::collections::HashMap;

use crate::sorting::{lemma_lex_compare_antisymmetric, lemma_lex_compare_transitive, lex_compare, lex_compare_exec};
use crate::text::{
    chars_of, contains, contains_exec, find_from, find_from_exec, lowercase, parse_unsigned,
    parse_unsigned_exec, subvec, to_lowercase,
};

verus! {

broadcast use {vstd::std_specs::hash::group_hash_axioms, vstd::seq_lib::group_to_multiset_ensures};

// ---------------------------------------------------------------------------
// Adapters
// ---------------------------------------------------------------------------

/// A graphics adapter, described by its driver.
#[derive(Debug, Clone)]
pub struct GpuAdapterInfo {
    pub name: String,
    pub backend: String,
    pub device_type: String,
    pub vendor: u32,
    pub device: u32,
    pub driver: String,
    pub driver_info: String,
}

/// `GpuAdapterInfo` with its strings as character sequences.
pub struct AdapterView {
    pub name: Seq<char>,
    pub backend: Seq<char>,
    pub device_type: Seq<char>,
    pub vendor: u32,
    pub device: u32,
    pub driver: Seq<char>,
    pub driver_info: Seq<char>,
}

impl View for GpuAdapterInfo {
    type V = AdapterView;

    open spec fn view(&self) -> AdapterView {
        AdapterView {
            name: self.name@,
            backend: self.backend@,
            device_type: self.device_type@,
            vendor: self.vendor,
            device: self.device,
            driver: self.driver@,
            driver_info: self.driver_info@,
        }
    }
}

/// The graphics API through which an adapter was found.
#[derive(Debug, Clone, Copy, PartialEq, Eq, Structural)]
pub enum GpuBackend {
    Empty,
    Vulkan,
    Metal,
    Dx12,
    Gl,
    BrowserWebGpu,
}

/// The operating system the monitor runs on, as far as adapter choice goes.
#[derive(Debug, Clone, Copy, PartialEq, Eq, Structural)]
pub enum Platform {
    Windows,
    MacOs,
    Other,
}

/// How much a backend is preferred on a platform (lower is better): the
/// native API first (DirectX 12 on Windows, Metal on macOS, Vulkan elsewhere).
pub open spec fn backend_rank(b: GpuBackend, p: Platform) -> u8 {
    match p {
        Platform::Windows => match b {
            GpuBackend::Dx12 => 0,
            GpuBackend::Vulkan => 1,
            GpuBackend::Gl => 2,
            GpuBackend::Metal => 3,
            GpuBackend::BrowserWebGpu => 4,
            _ => 10,
        },
        Platform::MacOs => match b {
            GpuBackend::Metal => 0,
            GpuBackend::Vulkan => 1,
            GpuBackend::Gl => 2,
            GpuBackend::BrowserWebGpu => 3,
            _ => 10,
        },
        Platform::Other => match b {
            GpuBackend::Vulkan => 0,
            GpuBackend::Gl => 1,
            GpuBackend::BrowserWebGpu => 2,
            GpuBackend::Metal => 3,
            GpuBackend::Dx12 => 4,
            _ => 10,
        },
    }
}

/// The preference of a backend on a platform.
pub fn backend_rank_exec(b: GpuBackend, p: Platform) -> (r: u8)
    ensures
        r == backend_rank(b, p),
{
    match p {
        Platform::Windows => match b {
            GpuBackend::Dx12 => 0,
            GpuBackend::Vulkan => 1,
            GpuBackend::Gl => 2,
            GpuBackend::Metal => 3,
            GpuBackend::BrowserWebGpu => 4,
            _ => 10,
        },
        Platform::MacOs => match b {
            GpuBackend::Metal => 0,
            GpuBackend::Vulkan => 1,
            GpuBackend::Gl => 2,
            GpuBackend::BrowserWebGpu => 3,
            _ => 10,
        },
        Platform::Other => match b {
            GpuBackend::Vulkan => 0,
            GpuBackend::Gl => 1,
            GpuBackend::BrowserWebGpu => 2,
            GpuBackend::Metal => 3,
            GpuBackend::Dx12 => 4,
            _ => 10,
        },
    }
}

/// An adapter as found through one backend.
pub struct AdapterCandidate {
    pub backend: GpuBackend,
    pub info: GpuAdapterInfo,
}

/// Two adapters are the same physical adapter: same vendor, device and name.
pub open spec fn same_adapter(a: AdapterView, b: AdapterView) -> bool {
    a.vendor == b.vendor && a.device == b.device && a.name == b.name
}

/// The index in `list` of the entry for the same adapter as `a`, at or after `k`.
pub open spec fn adapter_index(list: Seq<(u8, AdapterView)>, a: AdapterView, k: int) -> Option<int>
    decreases list.len() - k,
{
    if k < 0 || k >= list.len() {
        None
    } else if same_adapter(list[k].1, a) {
        Some(k)
    } else {
        adapter_index(list, a, k + 1)
    }
}

/// One entry per physical adapter, in order of first sighting, each with the
/// best-ranked sighting (the first among equally ranked ones) and its rank.
pub open spec fn best_adapters(cs: Seq<(GpuBackend, AdapterView)>, p: Platform) -> Seq<(u8, AdapterView)>
    decreases cs.len(),
{
    if cs.len() == 0 {
        seq![]
    } else {
        let prev = best_adapters(cs.drop_last(), p);
        let (b, a) = cs.last();
        let rank = backend_rank(b, p);
        match adapter_index(prev, a, 0) {
            Some(i) => if rank < prev[i].0 {
                prev.update(i, (rank, a))
            } else {
                prev
            },
            None => prev.push((rank, a)),
        }
    }
}

/// The views of the candidates.
pub open spec fn candidate_views(cs: Seq<AdapterCandidate>) -> Seq<(GpuBackend, AdapterView)> {
    cs.map_values(|c: AdapterCandidate| (c.backend, c.info@))
}

/// The adapters are sorted by lower-cased name.
pub open spec fn adapters_sorted(s: Seq<AdapterView>) -> bool {
    forall|i: int, j: int| 0 <= i < j < s.len() ==> lex_compare(lowercase((#[trigger] s[i]).name), lowercase((#[trigger] s[j]).name)) <= 0
}

fn same_adapter_exec(a: &GpuAdapterInfo, b: &GpuAdapterInfo) -> (r: bool)
    ensures
        r == same_adapter(a@, b@),
{
    a.vendor == b.vendor && a.device == b.device && a.name == b.name
}

/// One adapter per physical adapter (the sighting through the most
/// preferred backend), sorted by lower-cased name.
pub fn dedup_adapters(cands: Vec<AdapterCandidate>, platform: Platform) -> (out: Vec<GpuAdapterInfo>)
    ensures
        out@.map_values(|a: GpuAdapterInfo| a@).to_multiset() == best_adapters(
            candidate_views(cands@),
            platform,
        ).map_values(|e: (u8, AdapterView)| e.1).to_multiset(),
        adapters_sorted(out@.map_values(|a: GpuAdapterInfo| a@)),
{
    let ghost cv = candidate_views(cands@);
    let n = cands.len();
    let ghost orig = cands@;
    // Consume the candidates in order.
    let mut rest = cands;
    let mut rev: Vec<AdapterCandidate> = Vec::new();
    while rest.len() > 0
        invariant
            rest@.len() + rev@.len() == n,
            orig.len() == n,
            rest@ == orig.subrange(0, rest@.len() as int),
            forall|i: int| 0 <= i < rev@.len() ==> #[trigger] rev@[i] == orig[n - 1 - i],
        decreases rest.len(),
    {
        let x = rest.pop().unwrap();
        rev.push(x);
        assert(rest@ =~= orig.subrange(0, rest@.len() as int));
    }
    let mut ranks: Vec<u8> = Vec::new();
    let mut best: Vec<GpuAdapterInfo> = Vec::new();
    let mut j: usize = 0;
    assert(cv.take(0) =~= Seq::<(GpuBackend, AdapterView)>::empty());
    while rev.len() > 0
        invariant
            j + rev@.len() == n,
            orig.len() == n,
            cv == candidate_views(orig),
            forall|i: int| 0 <= i < rev@.len() ==> #[trigger] rev@[i] == orig[n - 1 - i],
            ranks@.len() == best@.len(),
            best_adapters(cv.take(j as int), platform).len() == best@.len(),
            forall|i: int| 0 <= i < best@.len() ==> #[trigger] best_adapters(cv.take(j as int), platform)[i] == (ranks@[i], best@[i]@),
        decreases rev.len(),
    {
        let c = rev.pop().unwrap();
        assert(orig[j as int] == c);
        let ghost prev = best_adapters(cv.take(j as int), platform);
        assert(cv.take(j + 1).drop_last() =~= cv.take(j as int));
        assert(cv.take(j + 1).last() == (c.backend, c.info@));
        let rank = backend_rank_exec(c.backend, platform);
        let mut k: usize = 0;
        while k < best.len()
            invariant
                k <= best@.len(),
                ranks@.len() == best@.len(),
                prev.len() == best@.len(),
                forall|i: int| 0 <= i < best@.len() ==> #[trigger] prev[i] == (ranks@[i], best@[i]@),
                adapter_index(prev, c.info@, 0) == adapter_index(prev, c.info@, k as int),
            ensures
                k <= best@.len(),
                k < best@.len() ==> adapter_index(prev, c.info@, 0) == Some(k as int),
                k == best@.len() ==> adapter_index(prev, c.info@, 0) is None,
            decreases best@.len() - k,
        {
            if same_adapter_exec(&best[k], &c.info) {
                break;
            }
            k = k + 1;
        }
        let ghost next = best_adapters(cv.take(j + 1), platform);
        if k < best.len() {
            if rank < ranks[k] {
                let ghost nv = c.info@;
                ranks.set(k, rank);
                best.set(k, c.info);
                assert(next =~= prev.update(k as int, (rank, nv)));
            } else {
                assert(next == prev);
            }
        } else {
            assert(next =~= prev.push((rank, c.info@)));
            ranks.push(rank);
            best.push(c.info);
        }
        j = j + 1;
    }
    assert(cv.take(n as int) =~= cv);
    let ghost unsorted = best@.map_values(|a: GpuAdapterInfo| a@);
    assert(unsorted =~= best_adapters(cv, platform).map_values(|e: (u8, AdapterView)| e.1));
    sort_adapters(best)
}

/// The adapters sorted by lower-cased name.
fn sort_adapters(v: Vec<GpuAdapterInfo>) -> (out: Vec<GpuAdapterInfo>)
    ensures
        out@.map_values(|a: GpuAdapterInfo| a@).to_multiset() == v@.map_values(|a: GpuAdapterInfo| a@).to_multiset(),
        adapters_sorted(out@.map_values(|a: GpuAdapterInfo| a@)),
{
    let ghost orig = v@.map_values(|a: GpuAdapterInfo| a@);
    let mut rest = v;
    let mut out: Vec<GpuAdapterInfo> = Vec::new();
    let mut keys: Vec<Vec<char>> = Vec::new();
    while rest.len() > 0
        invariant
            out@.len() == keys@.len(),
            forall|i: int| 0 <= i < out@.len() ==> (#[trigger] keys@[i])@ == lowercase(out@[i]@.name),
            adapters_sorted(out@.map_values(|a: GpuAdapterInfo| a@)),
            out@.map_values(|a: GpuAdapterInfo| a@).to_multiset().add(rest@.map_values(|a: GpuAdapterInfo| a@).to_multiset()) == orig.to_multiset(),
        decreases rest.len(),
    {
        let ghost rest_before = rest@;
        let a = rest.pop().unwrap();
        assert(rest_before.map_values(|a: GpuAdapterInfo| a@) =~= rest@.map_values(|a: GpuAdapterInfo| a@).push(a@));
        let lower = to_lowercase(a.name.as_str());
        let key = chars_of(lower.as_str());
        let mut j: usize = 0;
        while j < out.len()
            invariant
                j <= out@.len(),
                out@.len() == keys@.len(),
                forall|i: int| 0 <= i < out@.len() ==> (#[trigger] keys@[i])@ == lowercase(out@[i]@.name),
                key@ == lowercase(a@.name),
                forall|i: int| 0 <= i < j ==> lex_compare(key@, (#[trigger] keys@[i])@) > 0,
            ensures
                j <= out@.len(),
                j < out@.len() ==> lex_compare(key@, keys@[j as int]@) <= 0,
                forall|i: int| 0 <= i < j ==> lex_compare(key@, (#[trigger] keys@[i])@) > 0,
            decreases out@.len() - j,
        {
            if lex_compare_exec(&key, &keys[j]) <= 0 {
                break;
            }
            j = j + 1;
        }
        let ghost before = out@.map_values(|a: GpuAdapterInfo| a@);
        let ghost out_before = out@;
        let ghost keys_before = keys@;
        let ghost av = a@;
        let ghost kv = key@;
        out.insert(j, a);
        keys.insert(j, key);
        proof {
            let after = out@.map_values(|a: GpuAdapterInfo| a@);
            assert(after =~= before.insert(j as int, av));
            assert(after.remove(j as int) =~= before);
            assert forall|i: int| 0 <= i < out@.len() implies (#[trigger] keys@[i])@ == lowercase(out@[i]@.name) by {
                if i < j {
                    assert(out@[i] == out_before[i]);
                    assert(keys@[i] == keys_before[i]);
                } else if i > j {
                    assert(out@[i] == out_before[i - 1]);
                    assert(keys@[i] == keys_before[i - 1]);
                }
            }
            assert forall|x: int, y: int| 0 <= x < y < after.len() implies lex_compare(lowercase((#[trigger] after[x]).name), lowercase((#[trigger] after[y]).name)) <= 0 by {
                if x < j && y == j {
                    lemma_lex_compare_antisymmetric(kv, lowercase(before[x].name));
                    assert(keys_before[x]@ == lowercase(before[x].name));
                } else if x == j && y > j {
                    assert(keys_before[j as int]@ == lowercase(before[j as int].name));
                    if y - 1 > j {
                        assert(lex_compare(lowercase(before[j as int].name), lowercase(before[y - 1].name)) <= 0);
                        lemma_lex_compare_transitive(kv, lowercase(before[j as int].name), lowercase(before[y - 1].name));
                    }
                }
            }
            assert(after.to_multiset() =~= before.to_multiset().insert(av)) by {
                assert(after.to_multiset().remove(av) =~= before.to_multiset());
            }
        }
    }
    out
}

// ---------------------------------------------------------------------------
// Pids in counter names
// ---------------------------------------------------------------------------

/// The pid written in a counter instance name such as
/// `pid_1128_luid_0x0_eng_0_engtype_3D`: the text after the first `pid_` up
/// to the next `_` (or the end), read as a `u32`.
pub open spec fn pid_in_name(name: Seq<char>) -> Option<nat> {
    match find_from(name, "pid_"@, 0) {
        Some(idx) => {
            let digits = name.skip(idx + 4);
            let end = match find_from(digits, seq!['_'], 0) {
                Some(e) => e,
                None => digits.len() as int,
            };
            parse_unsigned(digits.take(end), u32::MAX as nat)
        },
        None => None,
    }
}

/// The pid written in a counter instance name.
pub fn extract_pid(name: &str) -> (r: Option<u32>)
    ensures
        match r {
            Some(p) => pid_in_name(name@) == Some(p as nat),
            None => pid_in_name(name@) is None,
        },
{
    let v = chars_of(name);
    let pat = chars_of("pid_");
    let us = chars_of("_");
    proof {
        reveal_strlit("pid_");
        reveal_strlit("_");
    }
    assert(us@ =~= seq!['_']);
    match find_from_exec(&v, &pat, 0) {
        Some(idx) => {
            proof {
                crate::text::lemma_find_from(v@, pat@, 0);
            }
            assert(pat@.len() == 4);
            assert(crate::text::matches_at(v@, pat@, idx as int));
            let vl = v.len();
            assert(idx + 4 <= vl);
            let digits = subvec(&v, idx + 4, vl);
            assert(digits@ =~= v@.skip(idx + 4));
            let end = match find_from_exec(&digits, &us, 0) {
                Some(e) => {
                    proof {
                        crate::text::lemma_find_from(digits@, us@, 0);
                    }
                    e
                },
                None => digits.len(),
            };
            let head = subvec(&digits, 0, end);
            assert(head@ =~= digits@.take(end as int));
            match parse_unsigned_exec(&head, 0xFFFF_FFFF) {
                Some(x) => Some(x as u32),
                None => None,
            }
        },
        None => None,
    }
}

// ---------------------------------------------------------------------------
// GPU engines: overall and per-process load
// ---------------------------------------------------------------------------

/// One row of the GPU engine counters.
pub struct GpuEngineSample {
    pub name: String,
    pub utilization_percentage: u64,
}

/// The engine is a 3D engine.
pub open spec fn is_3d_engine(name: Seq<char>) -> bool {
    contains(name, "engtype_3D"@)
}

/// The largest utilization among the rows (0 for none); among 3D engines
/// only when `only_3d`.
pub open spec fn max_utilization(rows: Seq<GpuEngineSample>, only_3d: bool) -> u64
    decreases rows.len(),
{
    if rows.len() == 0 {
        0
    } else {
        let prev = max_utilization(rows.drop_last(), only_3d);
        let r = rows.last();
        if !only_3d || is_3d_engine(r.name@) {
            if r.utilization_percentage > prev {
                r.utilization_percentage
            } else {
                prev
            }
        } else {
            prev
        }
    }
}

/// The overall GPU load (percent): the busiest 3D engine if any 3D engine is
/// busy, else the busiest engine, capped at 100; `None` if all are idle.
pub open spec fn overall_utilization(rows: Seq<GpuEngineSample>) -> Option<u64> {
    let all = max_utilization(rows, false);
    let three_d = max_utilization(rows, true);
    if three_d > 0 || all > 0 {
        let u = if three_d > 0 {
            three_d
        } else {
            all
        };
        Some(
            if u > 100 {
                100
            } else {
                u
            },
        )
    } else {
        None
    }
}

fn is_3d_engine_exec(name: &String) -> (r: bool)
    ensures
        r == is_3d_engine(name@),
{
    let v = chars_of(name.as_str());
    let p = chars_of("engtype_3D");
    contains_exec(&v, &p)
}

/// The overall GPU load the engine counters give.
pub fn overall_utilization_exec(rows: &Vec<GpuEngineSample>) -> (r: Option<u64>)
    ensures
        r == overall_utilization(rows@),
{
    let mut max_all: u64 = 0;
    let mut max_3d: u64 = 0;
    let mut i: usize = 0;
    while i < rows.len()
        invariant
            i <= rows.len(),
            max_all == max_utilization(rows@.take(i as int), false),
            max_3d == max_utilization(rows@.take(i as int), true),
        decreases rows.len() - i,
    {
        assert(rows@.take(i + 1).drop_last() =~= rows@.take(i as int));
        let u = rows[i].utilization_percentage;
        if u > max_all {
            max_all = u;
        }
        if is_3d_engine_exec(&rows[i].name) && u > max_3d {
            max_3d = u;
        }
        i = i + 1;
    }
    assert(rows@.take(rows.len() as int) =~= rows@);
    if max_3d > 0 || max_all > 0 {
        let u = if max_3d > 0 {
            max_3d
        } else {
            max_all
        };
        Some(
            if u > 100 {
                100
            } else {
                u
            },
        )
    } else {
        None
    }
}

/// The process of a counter row: the pid in its name, if there is one and
/// it is not 0.
pub open spec fn row_pid(name: Seq<char>) -> Option<u32> {
    match pid_in_name(name) {
        Some(p) => if p != 0 {
            Some(p as u32)
        } else {
            None
        },
        None => None,
    }
}

/// Per process, the largest utilization (capped at 100) among its rows;
/// among its 3D-engine rows only when `only_3d`.
pub open spec fn process_max_utilization(rows: Seq<GpuEngineSample>, only_3d: bool) -> Map<u32, u64>
    decreases rows.len(),
{
    if rows.len() == 0 {
        Map::empty()
    } else {
        let prev = process_max_utilization(rows.drop_last(), only_3d);
        let r = rows.last();
        let v: u64 = if r.utilization_percentage > 100 {
            100
        } else {
            r.utilization_percentage
        };
        match row_pid(r.name@) {
            Some(pid) => if !only_3d || is_3d_engine(r.name@) {
                prev.insert(
                    pid,
                    if prev.contains_key(pid) && prev[pid] >= v {
                        prev[pid]
                    } else {
                        v
                    },
                )
            } else {
                prev
            },
            None => prev,
        }
    }
}

/// The GPU load (percent) per process: its busiest 3D engine if it has 3D
/// rows, else its busiest engine.
pub open spec fn process_utilization(rows: Seq<GpuEngineSample>) -> Map<u32, u64> {
    let all = process_max_utilization(rows, false);
    let three_d = process_max_utilization(rows, true);
    Map::new(
        |p: u32| all.contains_key(p),
        |p: u32|
            if three_d.contains_key(p) {
                three_d[p]
            } else {
                all[p]
            },
    )
}

/// The pid of a counter row, if any and not 0.
fn row_pid_exec(name: &String) -> (r: Option<u32>)
    ensures
        r == row_pid(name@),
{
    match extract_pid(name.as_str()) {
        Some(p) => if p != 0 {
            Some(p)
        } else {
            None
        },
        None => None,
    }
}

/// Raises the entry of `pid` in `m` to at least `v` (inserting `v` if absent).
fn raise_entry(m: &mut HashMap<u32, u64>, pid: u32, v: u64)
    ensures
        final(m)@ == old(m)@.insert(
            pid,
            if old(m)@.contains_key(pid) && old(m)@[pid] >= v {
                old(m)@[pid]
            } else {
                v
            },
        ),
{
    let cur = match m.get(&pid) {
        Some(c) => Some(*c),
        None => None,
    };
    let nv = match cur {
        Some(c) => if c >= v {
            c
        } else {
            v
        },
        None => v,
    };
    m.insert(pid, nv);
}

/// The GPU load (percent) per process the engine counters give.
pub fn process_utilization_exec(rows: &Vec<GpuEngineSample>) -> (r: HashMap<u32, u64>)
    ensures
        r@ == process_utilization(rows@),
{
    let mut max_all: HashMap<u32, u64> = HashMap::new();
    let mut max_3d: HashMap<u32, u64> = HashMap::new();
    let mut i: usize = 0;
    while i < rows.len()
        invariant
            i <= rows.len(),
            max_all@ == process_max_utilization(rows@.take(i as int), false),
            max_3d@ == process_max_utilization(rows@.take(i as int), true),
        decreases rows.len() - i,
    {
        assert(rows@.take(i + 1).drop_last() =~= rows@.take(i as int));
        let r = &rows[i];
        if let Some(pid) = row_pid_exec(&r.name) {
            let v: u64 = if r.utilization_percentage > 100 {
                100
            } else {
                r.utilization_percentage
            };
            raise_entry(&mut max_all, pid, v);
            if is_3d_engine_exec(&r.name) {
                raise_entry(&mut max_3d, pid, v);
            }
        }
        i = i + 1;
    }
    assert(rows@.take(rows.len() as int) =~= rows@);
    let ghost all = max_all@;
    let ghost three = max_3d@;
    proof {
        lemma_3d_keys_within(rows@);
    }
    // Combine: every pid of `max_all`, preferring its 3D value.
    let mut result: HashMap<u32, u64> = HashMap::new();
    let mut j: usize = 0;
    while j < rows.len()
        invariant
            j <= rows.len(),
            all == process_max_utilization(rows@, false),
            three == process_max_utilization(rows@, true),
            max_all@ == all,
            max_3d@ == three,
            forall|p: u32| #[trigger] three.contains_key(p) ==> all.contains_key(p),
            forall|p: u32| #[trigger] result@.contains_key(p) ==> all.contains_key(p) && result@[p] == (if three.contains_key(p) { three[p] } else { all[p] }),
            forall|k: int| 0 <= k < j && (#[trigger] row_pid(rows@[k].name@)) is Some ==> result@.contains_key(row_pid(rows@[k].name@)->0),
        decreases rows.len() - j,
    {
        if let Some(pid) = row_pid_exec(&rows[j].name) {
            proof {
                lemma_row_pid_in_map(rows@, j as int);
            }
            let v = match max_3d.get(&pid) {
                Some(x) => *x,
                None => *max_all.get(&pid).unwrap(),
            };
            result.insert(pid, v);
        }
        j = j + 1;
    }
    proof {
        assert forall|p: u32| all.contains_key(p) implies result@.contains_key(p) by {
            let k = lemma_map_key_has_row(rows@, p);
            assert(row_pid(rows@[k].name@) == Some(p));
        }
    }
    assert(result@ =~= process_utilization(rows@));
    result
}

/// Every key of the per-process maximum comes from some row.
proof fn lemma_map_key_has_row(rows: Seq<GpuEngineSample>, p: u32) -> (k: int)
    requires
        process_max_utilization(rows, false).contains_key(p),
    ensures
        0 <= k < rows.len(),
        row_pid(rows[k].name@) == Some(p),
    decreases rows.len(),
{
    let prev = process_max_utilization(rows.drop_last(), false);
    if prev.contains_key(p) {
        let k = lemma_map_key_has_row(rows.drop_last(), p);
        assert(rows.drop_last()[k] == rows[k]);
        k
    } else {
        (rows.len() - 1) as int
    }
}

/// Every row's pid is a key of the per-process maximum.
proof fn lemma_row_pid_in_map(rows: Seq<GpuEngineSample>, k: int)
    requires
        0 <= k < rows.len(),
        row_pid(rows[k].name@) is Some,
    ensures
        process_max_utilization(rows, false).contains_key(row_pid(rows[k].name@)->0),
    decreases rows.len(),
{
    if k < rows.len() - 1 {
        lemma_row_pid_in_map(rows.drop_last(), k);
        assert(rows.drop_last()[k] == rows[k]);
    }
}

/// The 3D maximum has no pid the overall maximum lacks.
proof fn lemma_3d_keys_within(rows: Seq<GpuEngineSample>)
    ensures
        forall|p: u32| #[trigger] process_max_utilization(rows, true).contains_key(p)
            ==> process_max_utilization(rows, false).contains_key(p),
    decreases rows.len(),
{
    if rows.len() > 0 {
        lemma_3d_keys_within(rows.drop_last());
        let r = rows.last();
        assert forall|p: u32| #[trigger] process_max_utilization(rows, true).contains_key(p)
            implies process_max_utilization(rows, false).contains_key(p) by {
            if process_max_utilization(rows.drop_last(), true).contains_key(p) {
                assert(process_max_utilization(rows.drop_last(), false).contains_key(p));
            }
        }
    }
}

// ---------------------------------------------------------------------------
// GPU memory
// ---------------------------------------------------------------------------

/// Bytes in a mebibyte.
pub const MIB: u64 = 1_048_576;

/// A GPU memory counter in bytes. Some systems report these counters in
/// bytes and others in MiB: a value above 1 MiB is taken as bytes, a
/// smaller one as MiB.
pub open spec fn normalized_bytes(v: u64) -> u64 {
    if v > MIB {
        v
    } else {
        (v * MIB) as u64
    }
}

/// A GPU memory counter in bytes.
pub fn normalized_bytes_exec(v: u64) -> (r: u64)
    ensures
        r == normalized_bytes(v),
{
    if v > MIB {
        v
    } else {
        assert(v * MIB <= MIB * MIB) by (nonlinear_arith)
            requires
                v <= MIB,
        ;
        v * MIB
    }
}

/// One row of the adapter memory counters.
pub struct GpuAdapterMemorySample {
    pub name: String,
    pub dedicated_usage: u64,
    pub dedicated_limit: u64,
    pub shared_usage: u64,
    pub shared_limit: u64,
}

/// Overall GPU load and memory.
#[derive(Debug, Clone, Copy, PartialEq, Eq, Structural)]
pub struct GpuStats {
    /// Load in percent (0..=100).
    pub utilization_percent: Option<u64>,
    pub dedicated_used_bytes: Option<u64>,
    pub dedicated_total_bytes: Option<u64>,
    pub shared_used_bytes: Option<u64>,
    pub shared_total_bytes: Option<u64>,
}

/// The index of the memory row used: the first named `_Total`, else the first.
pub open spec fn chosen_memory_row(mems: Seq<GpuAdapterMemorySample>) -> Option<int> {
    if exists|i: int| 0 <= i < mems.len() && (#[trigger] mems[i]).name@ == "_Total"@ {
        Some(choose|i: int| 0 <= i < mems.len() && mems[i].name@ == "_Total"@ && forall|k: int| 0 <= k < i ==> (#[trigger] mems[k]).name@ != "_Total"@)
    } else if mems.len() > 0 {
        Some(0)
    } else {
        None
    }
}

/// Overall GPU load and memory from the engine and memory counters; `None`
/// when no engine is busy and there is no memory row.
pub open spec fn gpu_stats_of(rows: Seq<GpuEngineSample>, mems: Seq<GpuAdapterMemorySample>) -> Option<GpuStats> {
    let util = overall_utilization(rows);
    match chosen_memory_row(mems) {
        Some(i) => Some(GpuStats {
            utilization_percent: util,
            dedicated_used_bytes: Some(normalized_bytes(mems[i].dedicated_usage)),
            dedicated_total_bytes: Some(normalized_bytes(mems[i].dedicated_limit)),
            shared_used_bytes: Some(normalized_bytes(mems[i].shared_usage)),
            shared_total_bytes: Some(normalized_bytes(mems[i].shared_limit)),
        }),
        None => if util is Some {
            Some(GpuStats {
                utilization_percent: util,
                dedicated_used_bytes: None,
                dedicated_total_bytes: None,
                shared_used_bytes: None,
                shared_total_bytes: None,
            })
        } else {
            None
        },
    }
}

/// Overall GPU load and memory from the engine and memory counters.
pub fn gpu_stats_from_counters(rows: &Vec<GpuEngineSample>, mems: &Vec<GpuAdapterMemorySample>) -> (r: Option<GpuStats>)
    ensures
        r == gpu_stats_of(rows@, mems@),
{
    let util = overall_utilization_exec(rows);
    let total = String::from_str("_Total");
    let mut k: usize = 0;
    while k < mems.len()
        invariant
            k <= mems@.len(),
            total@ == "_Total"@,
            forall|i: int| 0 <= i < k ==> (#[trigger] mems@[i]).name@ != "_Total"@,
        ensures
            k <= mems@.len(),
            k < mems@.len() ==> mems@[k as int].name@ == "_Total"@,
            forall|i: int| 0 <= i < k ==> (#[trigger] mems@[i]).name@ != "_Total"@,
        decreases mems@.len() - k,
    {
        if mems[k].name == total {
            break;
        }
        k = k + 1;
    }
    let chosen: Option<usize> = if k < mems.len() {
        Some(k)
    } else if mems.len() > 0 {
        Some(0)
    } else {
        None
    };
    proof {
        if k < mems@.len() {
            let c = choose|i: int| 0 <= i < mems@.len() && mems@[i].name@ == "_Total"@ && forall|j: int| 0 <= j < i ==> (#[trigger] mems@[j]).name@ != "_Total"@;
            assert(mems@[k as int].name@ == "_Total"@);
            if c < k {
            } else if c > k {
                assert(mems@[k as int].name@ != "_Total"@);
            }
            assert(chosen_memory_row(mems@) == Some(k as int));
        } else {
            assert(!exists|i: int| 0 <= i < mems@.len() && (#[trigger] mems@[i]).name@ == "_Total"@);
        }
    }
    match chosen {
        Some(i) => {
            let m = &mems[i];
            Some(GpuStats {
                utilization_percent: util,
                dedicated_used_bytes: Some(normalized_bytes_exec(m.dedicated_usage)),
                dedicated_total_bytes: Some(normalized_bytes_exec(m.dedicated_limit)),
                shared_used_bytes: Some(normalized_bytes_exec(m.shared_usage)),
                shared_total_bytes: Some(normalized_bytes_exec(m.shared_limit)),
            })
        },
        None => if util.is_some() {
            Some(GpuStats {
                utilization_percent: util,
                dedicated_used_bytes: None,
                dedicated_total_bytes: None,
                shared_used_bytes: None,
                shared_total_bytes: None,
            })
        } else {
            None
        },
    }
}

/// One row of the per-process GPU memory counters.
pub struct GpuProcessMemorySample {
    pub name: String,
    pub dedicated_usage: u64,
    pub shared_usage: u64,
    pub total_committed: u64,
}

/// GPU memory of one process, in bytes.
#[derive(Debug, Clone, Copy, PartialEq, Eq, Structural)]
pub struct GpuProcessMemory {
    pub dedicated_used_bytes: Option<u64>,
    pub shared_used_bytes: Option<u64>,
    pub total_committed_bytes: Option<u64>,
}

pub open spec fn max_u64(a: u64, b: u64) -> u64 {
    if a >= b {
        a
    } else {
        b
    }
}

/// Per process, the largest of each of its memory counters (as bytes).
pub open spec fn process_memory(rows: Seq<GpuProcessMemorySample>) -> Map<u32, GpuProcessMemory>
    decreases rows.len(),
{
    if rows.len() == 0 {
        Map::empty()
    } else {
        let prev = process_memory(rows.drop_last());
        let r = rows.last();
        match row_pid(r.name@) {
            Some(pid) => {
                let (d0, s0, t0) = if prev.contains_key(pid) {
                    (
                        prev[pid].dedicated_used_bytes.unwrap_or(0),
                        prev[pid].shared_used_bytes.unwrap_or(0),
                        prev[pid].total_committed_bytes.unwrap_or(0),
                    )
                } else {
                    (0, 0, 0)
                };
                prev.insert(
                    pid,
                    GpuProcessMemory {
                        dedicated_used_bytes: Some(max_u64(d0, normalized_bytes(r.dedicated_usage))),
                        shared_used_bytes: Some(max_u64(s0, normalized_bytes(r.shared_usage))),
                        total_committed_bytes: Some(max_u64(t0, normalized_bytes(r.total_committed))),
                    },
                )
            },
            None => prev,
        }
    }
}

/// The GPU memory per process the counters give.
pub fn process_memory_exec(rows: &Vec<GpuProcessMemorySample>) -> (r: HashMap<u32, GpuProcessMemory>)
    ensures
        r@ == process_memory(rows@),
{
    let mut m: HashMap<u32, GpuProcessMemory> = HashMap::new();
    let mut i: usize = 0;
    while i < rows.len()
        invariant
            i <= rows.len(),
            m@ == process_memory(rows@.take(i as int)),
        decreases rows.len() - i,
    {
        assert(rows@.take(i + 1).drop_last() =~= rows@.take(i as int));
        let r = &rows[i];
        if let Some(pid) = row_pid_exec(&r.name) {
            let (d0, s0, t0) = match m.get(&pid) {
                Some(e) => (
                    match e.dedicated_used_bytes { Some(x) => x, None => 0 },
                    match e.shared_used_bytes { Some(x) => x, None => 0 },
                    match e.total_committed_bytes { Some(x) => x, None => 0 },
                ),
                None => (0, 0, 0),
            };
            let d = normalized_bytes_exec(r.dedicated_usage);
            let s = normalized_bytes_exec(r.shared_usage);
            let t = normalized_bytes_exec(r.total_committed);
            m.insert(
                pid,
                GpuProcessMemory {
                    dedicated_used_bytes: Some(if d0 >= d { d0 } else { d }),
                    shared_used_bytes: Some(if s0 >= s { s0 } else { s }),
                    total_committed_bytes: Some(if t0 >= t { t0 } else { t }),
                },
            );
        }
        i = i + 1;
    }
    assert(rows@.take(rows.len() as int) =~= rows@);
    m
}

} // verus!
