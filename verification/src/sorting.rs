//! The order of the process list: by a column, ascending or descending,
//! with the pid as tie-breaker.
use vstd::prelude::*;

use crate::app::SortBy;
use crate::float::{order_key, order_key_exec};
use crate::models::{MetricsView, MonitoredProcess, ProcessView, process_views};
use crate::text::{chars_of, lowercase, to_lowercase};

verus! {

broadcast use vstd::seq_lib::group_to_multiset_ensures;

/// Lexicographic comparison of character sequences by code point: -1, 0 or 1
/// (the order of `String`).
pub open spec fn lex_compare(a: Seq<char>, b: Seq<char>) -> int
    decreases a.len(),
{
    if a.len() == 0 {
        if b.len() == 0 {
            0
        } else {
            -1
        }
    } else if b.len() == 0 {
        1
    } else if (a[0] as int) < (b[0] as int) {
        -1
    } else if (a[0] as int) > (b[0] as int) {
        1
    } else {
        lex_compare(a.drop_first(), b.drop_first())
    }
}

/// `lex_compare` is antisymmetric, and zero only on equal sequences.
pub proof fn lemma_lex_compare_antisymmetric(a: Seq<char>, b: Seq<char>)
    ensures
        lex_compare(a, b) == -lex_compare(b, a),
        -1 <= lex_compare(a, b) <= 1,
        lex_compare(a, b) == 0 ==> a == b,
    decreases a.len(),
{
    if a.len() > 0 && b.len() > 0 && a[0] == b[0] {
        lemma_lex_compare_antisymmetric(a.drop_first(), b.drop_first());
        if lex_compare(a, b) == 0 {
            assert(a =~= seq![a[0]] + a.drop_first());
            assert(b =~= seq![b[0]] + b.drop_first());
        }
    } else if a.len() > 0 && b.len() > 0 {
        assert((a[0] as int) != (b[0] as int));
    } else if a.len() == 0 && b.len() == 0 {
        assert(a =~= b);
    }
}

/// `lex_compare` is transitive.
pub proof fn lemma_lex_compare_transitive(a: Seq<char>, b: Seq<char>, c: Seq<char>)
    requires
        lex_compare(a, b) <= 0,
        lex_compare(b, c) <= 0,
    ensures
        lex_compare(a, c) <= 0,
    decreases a.len(),
{
    if a.len() > 0 && b.len() > 0 && c.len() > 0 {
        if a[0] == b[0] && b[0] == c[0] {
            lemma_lex_compare_transitive(a.drop_first(), b.drop_first(), c.drop_first());
        }
    }
}

/// Compares `a` and `b` lexicographically.
pub fn lex_compare_exec(a: &Vec<char>, b: &Vec<char>) -> (r: i8)
    ensures
        r as int == lex_compare(a@, b@),
{
    let mut i: usize = 0;
    assert(a@.skip(0) =~= a@);
    assert(b@.skip(0) =~= b@);
    while i < a.len() && i < b.len()
        invariant
            i <= a.len(),
            i <= b.len(),
            lex_compare(a@, b@) == lex_compare(a@.skip(i as int), b@.skip(i as int)),
        decreases a.len() - i,
    {
        assert(a@.skip(i as int)[0] == a@[i as int]);
        assert(b@.skip(i as int)[0] == b@[i as int]);
        let ca = a[i];
        let cb = b[i];
        if ca < cb {
            return -1;
        }
        if ca > cb {
            return 1;
        }
        assert(a@.skip(i as int).drop_first() =~= a@.skip(i + 1));
        assert(b@.skip(i as int).drop_first() =~= b@.skip(i + 1));
        i = i + 1;
    }
    if i < a.len() {
        1
    } else if i < b.len() {
        -1
    } else {
        0
    }
}

/// The newest sample of a process, if it has one.
pub open spec fn last_sample(p: ProcessView) -> Option<MetricsView> {
    if p.metrics_history.len() > 0 {
        Some(p.metrics_history.last().1)
    } else {
        None
    }
}

/// The numeric sort key: the order key of the newest CPU usage or the newest
/// memory (each taken as 0 without samples), the pid, or the risk score; 0
/// when sorting by name.
pub open spec fn numeric_key(p: ProcessView, by: SortBy) -> nat {
    match by {
        SortBy::Cpu => match last_sample(p) {
            Some(m) => order_key(m.cpu_usage_bits),
            None => order_key(0),
        },
        SortBy::Memory => match last_sample(p) {
            Some(m) => m.memory_usage as nat,
            None => 0,
        },
        SortBy::Name => 0,
        SortBy::Pid => p.metadata.pid as nat,
        SortBy::Risk => p.current_risk.score as nat,
    }
}

/// The text sort key: the lower-cased name when sorting by name, else empty.
pub open spec fn text_key(p: ProcessView, by: SortBy) -> Seq<char> {
    if by == SortBy::Name {
        lowercase(p.metadata.name)
    } else {
        Seq::empty()
    }
}

/// Compares the sort keys of two processes: -1, 0 or 1.
pub open spec fn compare_keys(p: ProcessView, q: ProcessView, by: SortBy) -> int {
    if numeric_key(p, by) < numeric_key(q, by) {
        -1
    } else if numeric_key(p, by) > numeric_key(q, by) {
        1
    } else {
        lex_compare(text_key(p, by), text_key(q, by))
    }
}

/// `p` may come before `q`: its key is smaller (larger when descending), or
/// the keys are equal and its pid is not larger.
pub open spec fn in_order(p: ProcessView, q: ProcessView, by: SortBy, desc: bool) -> bool {
    let c = if desc {
        -compare_keys(p, q, by)
    } else {
        compare_keys(p, q, by)
    };
    c < 0 || (c == 0 && p.metadata.pid <= q.metadata.pid)
}

/// Every process comes in order before every later one.
pub open spec fn is_sorted(s: Seq<ProcessView>, by: SortBy, desc: bool) -> bool {
    forall|i: int, j: int| 0 <= i < j < s.len() ==> in_order(#[trigger] s[i], #[trigger] s[j], by, desc)
}

/// Any two processes are in order one way or the other.
pub proof fn lemma_in_order_total(p: ProcessView, q: ProcessView, by: SortBy, desc: bool)
    ensures
        in_order(p, q, by, desc) || in_order(q, p, by, desc),
{
    lemma_lex_compare_antisymmetric(text_key(p, by), text_key(q, by));
}

/// Being in order is transitive.
pub proof fn lemma_in_order_transitive(
    p: ProcessView,
    q: ProcessView,
    r: ProcessView,
    by: SortBy,
    desc: bool,
)
    requires
        in_order(p, q, by, desc),
        in_order(q, r, by, desc),
    ensures
        in_order(p, r, by, desc),
{
    let (a, b, c) = (text_key(p, by), text_key(q, by), text_key(r, by));
    lemma_lex_compare_antisymmetric(a, b);
    lemma_lex_compare_antisymmetric(b, c);
    lemma_lex_compare_antisymmetric(a, c);
    if !desc {
        if lex_compare(a, b) <= 0 && lex_compare(b, c) <= 0 {
            lemma_lex_compare_transitive(a, b, c);
        }
    } else {
        if lex_compare(b, a) <= 0 && lex_compare(c, b) <= 0 {
            lemma_lex_compare_transitive(c, b, a);
        }
    }
}

/// The sort keys of one process, computed once.
struct SortKeys {
    numeric: u64,
    text: Vec<char>,
    pid: u32,
}

spec fn keys_of(k: SortKeys, p: ProcessView, by: SortBy) -> bool {
    &&& k.numeric as nat == numeric_key(p, by)
    &&& k.text@ == text_key(p, by)
    &&& k.pid == p.metadata.pid
}

fn sort_keys(p: &MonitoredProcess, by: SortBy) -> (k: SortKeys)
    ensures
        keys_of(k, p@, by),
{
    let n = p.metrics_history.len();
    let numeric: u64 = match by {
        SortBy::Cpu => if n > 0 {
            order_key_exec(p.metrics_history[n - 1].1.cpu_usage_bits)
        } else {
            order_key_exec(0)
        },
        SortBy::Memory => if n > 0 {
            p.metrics_history[n - 1].1.memory_usage
        } else {
            0
        },
        SortBy::Name => 0,
        SortBy::Pid => p.metadata.pid as u64,
        SortBy::Risk => p.current_risk.score as u64,
    };
    let text: Vec<char> = if by == SortBy::Name {
        let lower = to_lowercase(p.metadata.name.as_str());
        chars_of(lower.as_str())
    } else {
        Vec::new()
    };
    SortKeys { numeric, text, pid: p.metadata.pid }
}

fn keys_in_order(a: &SortKeys, b: &SortKeys, desc: bool, Ghost(p): Ghost<ProcessView>, Ghost(q): Ghost<ProcessView>, Ghost(by): Ghost<SortBy>) -> (r: bool)
    requires
        keys_of(*a, p, by),
        keys_of(*b, q, by),
    ensures
        r == in_order(p, q, by, desc),
{
    let c: i8 = if a.numeric < b.numeric {
        -1
    } else if a.numeric > b.numeric {
        1
    } else {
        lex_compare_exec(&a.text, &b.text)
    };
    proof {
        lemma_lex_compare_antisymmetric(a.text@, b.text@);
    }
    let c: i8 = if desc {
        -c
    } else {
        c
    };
    c < 0 || (c == 0 && a.pid <= b.pid)
}

/// The processes sorted by `by` (descending when `desc`), pids ascending
/// among equal keys.
pub fn sort_processes(procs: Vec<MonitoredProcess>, by: SortBy, desc: bool) -> (out: Vec<
    MonitoredProcess,
>)
    ensures
        process_views(out@).to_multiset() == process_views(procs@).to_multiset(),
        is_sorted(process_views(out@), by, desc),
{
    let ghost orig = process_views(procs@);
    let mut rest = procs;
    let mut out: Vec<MonitoredProcess> = Vec::new();
    let mut keys: Vec<SortKeys> = Vec::new();
    while rest.len() > 0
        invariant
            out@.len() == keys@.len(),
            forall|i: int| 0 <= i < out@.len() ==> keys_of(#[trigger] keys@[i], out@[i]@, by),
            is_sorted(process_views(out@), by, desc),
            process_views(out@).to_multiset().add(process_views(rest@).to_multiset()) == orig.to_multiset(),
        decreases rest.len(),
    {
        let ghost rest_before = rest@;
        let p = rest.pop().unwrap();
        assert(process_views(rest_before) =~= process_views(rest@).push(p@));
        let k = sort_keys(&p, by);
        let mut j: usize = 0;
        while j < out.len()
            invariant
                j <= out@.len(),
                out@.len() == keys@.len(),
                forall|i: int| 0 <= i < out@.len() ==> keys_of(#[trigger] keys@[i], out@[i]@, by),
                keys_of(k, p@, by),
                forall|i: int| 0 <= i < j ==> !in_order(p@, #[trigger] out@[i]@, by, desc),
            ensures
                j <= out@.len(),
                j < out@.len() ==> in_order(p@, out@[j as int]@, by, desc),
                forall|i: int| 0 <= i < j ==> !in_order(p@, #[trigger] out@[i]@, by, desc),
            decreases out@.len() - j,
        {
            if keys_in_order(&k, &keys[j], desc, Ghost(p@), Ghost(out@[j as int]@), Ghost(by)) {
                break;
            }
            j = j + 1;
        }
        let ghost before = process_views(out@);
        let ghost out_before = out@;
        let ghost keys_before = keys@;
        let ghost pv = p@;
        out.insert(j, p);
        keys.insert(j, k);
        proof {
            let after = process_views(out@);
            assert(after =~= before.insert(j as int, pv));
            assert(after.remove(j as int) =~= before);
            assert(forall|i: int| 0 <= i < keys@.len() ==> keys_of(#[trigger] keys@[i], out@[i]@, by)) by {
                assert forall|i: int| 0 <= i < keys@.len() implies keys_of(#[trigger] keys@[i], out@[i]@, by) by {
                    if i < j {
                        assert(out@[i] == out_before[i]);
                        assert(keys@[i] == keys_before[i]);
                    } else if i == j {
                    } else {
                        assert(out@[i] == out_before[i - 1]);
                        assert(keys@[i] == keys_before[i - 1]);
                    }
                }
            }
            assert forall|a: int, b: int| 0 <= a < b < after.len() implies in_order(#[trigger] after[a], #[trigger] after[b], by, desc) by {
                if a < j && b == j {
                    lemma_in_order_total(pv, before[a], by, desc);
                } else if a == j && b > j {
                    if j < before.len() {
                        assert(in_order(pv, before[j as int], by, desc));
                        if b - 1 > j {
                            lemma_in_order_transitive(pv, before[j as int], before[b - 1], by, desc);
                        }
                    }
                } else if a < j && b > j {
                } else if a > j {
                } else {
                }
            }
            assert(after.to_multiset() =~= before.to_multiset().insert(pv)) by {
                assert(after.to_multiset().remove(pv) =~= before.to_multiset());
            }
        }
    }
    out
}

} // verus!
